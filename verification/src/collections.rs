//! A minimal chained-bucket hash map with byte-string keys and a fixed
//! number of buckets.  The table never resizes; each bucket is a vector of
//! entries scanned linearly, and the map's meaning is the finite map from
//! key contents to values.

use vstd::prelude::*;
use vstd::map::*;

verus! {

/// Number of buckets; fixed for the table's lifetime.
pub const BUCKET_COUNT: usize = 16;

/// Modulus applied to the rolling hash before each multiply, keeping the
/// arithmetic well inside `usize` on any machine width.
pub const HASH_LIMIT: usize = 134217728;

/// Seed for the rolling hash.
pub const HASH_SEED: usize = 99991;

/// One key/value pair stored in a bucket.
pub struct Entry<V> {
    pub key: Vec<u8>,
    pub val: V,
}

/// The rolling hash of a byte string, folded left to right.
pub open spec fn hash_spec(seed: int, key: Seq<u8>) -> int
    decreases key.len(),
{
    if key.len() == 0 {
        seed
    } else {
        (hash_spec(seed, key.drop_last()) % (HASH_LIMIT as int)) * 31 + key.last()
    }
}

/// Whether some entry of bucket `b` holds exactly the key `key`.
pub open spec fn bucket_has_key<V>(b: Seq<Entry<V>>, key: Seq<u8>) -> bool {
    exists|j: int| 0 <= j < b.len() && (#[trigger] b[j]).key@ == key
}

/// The value stored with `key` in bucket `b`.
pub open spec fn bucket_value_for<V>(b: Seq<Entry<V>>, key: Seq<u8>) -> V
    recommends
        bucket_has_key(b, key),
{
    b[choose|j: int| 0 <= j < b.len() && (#[trigger] b[j]).key@ == key].val
}

/// In a bucket with pairwise-distinct keys, the entry at `j` is the one
/// `bucket_value_for` speaks of.
proof fn lemma_bucket_value<V>(b: Seq<Entry<V>>, key: Seq<u8>, j: int)
    requires
        0 <= j < b.len(),
        b[j].key@ == key,
        forall|j1: int, j2: int|
            0 <= j1 < j2 < b.len() ==> (#[trigger] b[j1]).key@ != (#[trigger] b[j2]).key@,
    ensures
        bucket_has_key(b, key),
        bucket_value_for(b, key) == b[j].val,
{
    assert(bucket_has_key(b, key));
    let j2 = choose|j2: int| 0 <= j2 < b.len() && (#[trigger] b[j2]).key@ == key;
    if j2 < j {
        assert(b[j2].key@ != b[j].key@);
    } else if j < j2 {
        assert(b[j].key@ != b[j2].key@);
    }
}

/// Compare two byte strings by contents.
fn keys_equal(a: &Vec<u8>, b: &Vec<u8>) -> (r: bool)
    ensures
        r <==> a@ == b@,
{
    if a.len() != b.len() {
        return false;
    }
    let mut i: usize = 0;
    while i < a.len()
        invariant
            i <= a@.len(),
            a@.len() == b@.len(),
            forall|j: int| 0 <= j < i ==> a@[j] == b@[j],
        decreases a@.len() - i,
    {
        if a[i] != b[i] {
            return false;
        }
        i = i + 1;
    }
    proof {
        assert(a@ =~= b@);
    }
    true
}

/// Copy a byte string.
fn clone_key(v: &Vec<u8>) -> (r: Vec<u8>)
    ensures
        r@ == v@,
{
    let mut r: Vec<u8> = Vec::new();
    let mut i: usize = 0;
    while i < v.len()
        invariant
            i <= v@.len(),
            r@ == v@.take(i as int),
        decreases v@.len() - i,
    {
        r.push(v[i]);
        proof {
            assert(v@.take(i + 1 as int) =~= v@.take(i as int).push(v@[i as int]));
        }
        i = i + 1;
    }
    proof {
        assert(v@.take(v@.len() as int) =~= v@);
    }
    r
}

/// A chained-bucket hash map from byte strings to values of type `V`.
pub struct HashMap<V> {
    pub tab: Vec<Vec<Entry<V>>>,
    pub stamp: usize,
}

impl<V> HashMap<V> {
    /// The bucket that `key` belongs to.
    pub open spec fn bucket_of(self, key: Seq<u8>) -> int {
        hash_spec(self.stamp as int, key) % (BUCKET_COUNT as int)
    }

    /// The bucket at index `i` sends every entry's key to `i` and holds
    /// pairwise-distinct keys.
    pub open spec fn bucket_wf(self, i: int) -> bool
        recommends
            0 <= i < self.tab@.len(),
    {
        &&& forall|j: int|
            0 <= j < self.tab@[i]@.len() ==> self.bucket_of(
                (#[trigger] self.tab@[i]@[j]).key@,
            ) == i
        &&& forall|j1: int, j2: int|
            0 <= j1 < j2 < self.tab@[i]@.len() ==> (#[trigger] self.tab@[i]@[j1]).key@ != (
            #[trigger] self.tab@[i]@[j2]).key@
    }

    /// Well-formedness of the whole table.
    pub open spec fn wf(self) -> bool {
        &&& self.tab@.len() == BUCKET_COUNT
        &&& self.stamp == HASH_SEED
        &&& forall|i: int| 0 <= i < BUCKET_COUNT ==> #[trigger] self.bucket_wf(i)
    }

    /// Whether the map holds `key`.
    pub open spec fn contains_spec(self, key: Seq<u8>) -> bool {
        bucket_has_key(self.tab@[self.bucket_of(key)]@, key)
    }

    /// The value the map holds for `key`.
    pub open spec fn value_spec(self, key: Seq<u8>) -> V
        recommends
            self.contains_spec(key),
    {
        bucket_value_for(self.tab@[self.bucket_of(key)]@, key)
    }

    /// A fresh, empty map.
    pub fn new() -> (r: Self)
        ensures
            r.wf(),
            r@ == Map::<Seq<u8>, V>::empty(),
    {
        let mut tab: Vec<Vec<Entry<V>>> = Vec::new();
        while tab.len() < BUCKET_COUNT
            invariant
                tab@.len() <= BUCKET_COUNT,
                forall|i: int| 0 <= i < tab@.len() ==> (#[trigger] tab@[i])@.len() == 0,
            decreases BUCKET_COUNT - tab@.len(),
        {
            tab.push(Vec::new());
        }
        let r = HashMap { tab, stamp: HASH_SEED };
        proof {
            assert(r@ =~= Map::<Seq<u8>, V>::empty());
        }
        r
    }

    /// The bucket index for `key`: the rolling hash of its bytes reduced
    /// modulo the bucket count.
    fn hash(&self, key: &Vec<u8>) -> (i: usize)
        requires
            self.wf(),
        ensures
            i == self.bucket_of(key@),
            i < BUCKET_COUNT,
    {
        let mut h: usize = self.stamp;
        let mut j: usize = 0;
        while j < key.len()
            invariant
                j <= key@.len(),
                h == hash_spec(self.stamp as int, key@.take(j as int)),
            decreases key@.len() - j,
        {
            let b = key[j];
            proof {
                assert(key@.take(j + 1 as int).drop_last() =~= key@.take(j as int));
                assert(key@.take(j + 1 as int).last() == key@[j as int]);
            }
            h = (h % HASH_LIMIT) * 31 + (b as usize);
            j = j + 1;
        }
        proof {
            assert(key@.take(key@.len() as int) =~= key@);
        }
        h % BUCKET_COUNT
    }

    /// Look `key` up, returning a reference to its value if present.
    pub fn get(&self, key: &Vec<u8>) -> (r: Option<&V>)
        requires
            self.wf(),
        ensures
            r is Some <==> self@.contains_key(key@),
            r matches Some(v) ==> *v == self@[key@],
    {
        let i = self.hash(key);
        let bucket: &Vec<Entry<V>> = &self.tab[i];
        let mut j: usize = 0;
        while j < bucket.len()
            invariant
                self.wf(),
                i == self.bucket_of(key@),
                i < BUCKET_COUNT,
                bucket@ == self.tab@[i as int]@,
                j <= bucket@.len(),
                forall|jj: int| 0 <= jj < j ==> (#[trigger] bucket@[jj]).key@ != key@,
            decreases bucket@.len() - j,
        {
            let e = &bucket[j];
            if keys_equal(&e.key, key) {
                proof {
                    assert(self.bucket_wf(i as int));
                    lemma_bucket_value(bucket@, key@, j as int);
                }
                return Some(&e.val);
            }
            j = j + 1;
        }
        proof {
            assert(!bucket_has_key(bucket@, key@));
        }
        None
    }

    /// Insert `value` under `key`, replacing any value already there.
    pub fn insert(&mut self, key: Vec<u8>, value: V)
        requires
            old(self).wf(),
        ensures
            final(self).wf(),
            final(self)@ == old(self)@.insert(key@, value),
    {
        let i = self.hash(&key);
        let mut j: usize = 0;
        let blen = self.tab[i].len();
        while j < blen
            invariant
                *self == *old(self),
                self.wf(),
                i == self.bucket_of(key@),
                i < BUCKET_COUNT,
                blen == self.tab@[i as int]@.len(),
                j <= blen,
                forall|jj: int| 0 <= jj < j ==> (#[trigger] self.tab@[i as int]@[jj]).key@ != key@,
            decreases blen - j,
        {
            let hit = keys_equal(&self.tab[i][j].key, &key);
            if hit {
                let ghost b0 = self.tab@[i as int]@;
                let bucket = vstd::std_specs::vec::vec_index_mut(&mut self.tab, i);
                let entry = vstd::std_specs::vec::vec_index_mut(bucket, j);
                *entry = Entry { key, val: value };
                proof {
                    let b1 = self.tab@[i as int]@;
                    let k = b1[j as int].key@;
                    assert(old(self).bucket_wf(i as int));
                    assert(forall|jj: int|
                        0 <= jj < b1.len() ==> (#[trigger] b1[jj]).key@ == b0[jj].key@);
                    assert forall|i2: int| 0 <= i2 < BUCKET_COUNT implies #[trigger] self
                        .bucket_wf(i2) by {
                        assert(old(self).bucket_wf(i2));
                        if i2 != i as int {
                            assert(self.tab@[i2] == old(self).tab@[i2]);
                        }
                    }
                    lemma_bucket_value(b1, k, j as int);
                    lemma_bucket_value(b0, k, j as int);
                    assert_maps_equal!(self.view(), old(self)@.insert(k, value), k2 => {
                        if self.bucket_of(k2) == i as int {
                            if k2 == k {
                            } else {
                                if bucket_has_key(b0, k2) {
                                    let jj = choose|jj: int|
                                        0 <= jj < b0.len() && (#[trigger] b0[jj]).key@ == k2;
                                    assert(jj != j as int);
                                    assert(b1[jj].key@ == k2);
                                    lemma_bucket_value(b0, k2, jj);
                                    lemma_bucket_value(b1, k2, jj);
                                } else {
                                    if bucket_has_key(b1, k2) {
                                        let jj = choose|jj: int|
                                            0 <= jj < b1.len() && (#[trigger] b1[jj]).key@ == k2;
                                        assert(b0[jj].key@ == k2);
                                    }
                                }
                            }
                        } else {
                            assert(self.tab@[self.bucket_of(k2)] == old(
                                self,
                            ).tab@[self.bucket_of(k2)]);
                        }
                    });
                }
                return ;
            }
            j = j + 1;
        }
        let ghost b0 = self.tab@[i as int]@;
        let bucket = vstd::std_specs::vec::vec_index_mut(&mut self.tab, i);
        bucket.push(Entry { key, val: value });
        proof {
            let b1 = self.tab@[i as int]@;
            let k = b1[blen as int].key@;
            assert(b1 =~= b0.push(b1[blen as int]));
            assert(old(self).bucket_wf(i as int));
            assert forall|i2: int| 0 <= i2 < BUCKET_COUNT implies #[trigger] self.bucket_wf(
                i2,
            ) by {
                assert(old(self).bucket_wf(i2));
                if i2 != i as int {
                    assert(self.tab@[i2] == old(self).tab@[i2]);
                }
            }
            lemma_bucket_value(b1, k, blen as int);
            assert_maps_equal!(self.view(), old(self)@.insert(k, value), k2 => {
                if self.bucket_of(k2) == i as int {
                    if k2 == k {
                    } else {
                        if bucket_has_key(b0, k2) {
                            let jj = choose|jj: int|
                                0 <= jj < b0.len() && (#[trigger] b0[jj]).key@ == k2;
                            assert(b1[jj].key@ == k2);
                            lemma_bucket_value(b0, k2, jj);
                            lemma_bucket_value(b1, k2, jj);
                        } else {
                            if bucket_has_key(b1, k2) {
                                let jj = choose|jj: int|
                                    0 <= jj < b1.len() && (#[trigger] b1[jj]).key@ == k2;
                                assert(jj != blen as int);
                                assert(b0[jj].key@ == k2);
                            }
                        }
                    }
                } else {
                    assert(self.tab@[self.bucket_of(k2)] == old(self).tab@[self.bucket_of(k2)]);
                }
            });
        }
    }

    /// Remove `key`, returning the value it held, if any.
    pub fn remove(&mut self, key: &Vec<u8>) -> (r: Option<V>)
        requires
            old(self).wf(),
        ensures
            final(self).wf(),
            final(self)@ == old(self)@.remove(key@),
            r is Some <==> old(self)@.contains_key(key@),
            r matches Some(v) ==> v == old(self)@[key@],
    {
        let i = self.hash(key);
        let mut j: usize = 0;
        let blen = self.tab[i].len();
        while j < blen
            invariant
                *self == *old(self),
                self.wf(),
                i == self.bucket_of(key@),
                i < BUCKET_COUNT,
                blen == self.tab@[i as int]@.len(),
                j <= blen,
                forall|jj: int| 0 <= jj < j ==> (#[trigger] self.tab@[i as int]@[jj]).key@ != key@,
            decreases blen - j,
        {
            let hit = keys_equal(&self.tab[i][j].key, key);
            if hit {
                let ghost b0 = self.tab@[i as int]@;
                let bucket = vstd::std_specs::vec::vec_index_mut(&mut self.tab, i);
                let entry = bucket.remove(j);
                proof {
                    let b1 = self.tab@[i as int]@;
                    assert(old(self).bucket_wf(i as int));
                    lemma_bucket_value(b0, key@, j as int);
                    assert(forall|jj: int|
                        0 <= jj < b1.len() ==> #[trigger] b1[jj] == (if jj < j as int {
                            b0[jj]
                        } else {
                            b0[jj + 1]
                        }));
                    assert forall|i2: int| 0 <= i2 < BUCKET_COUNT implies #[trigger] self
                        .bucket_wf(i2) by {
                        assert(old(self).bucket_wf(i2));
                        if i2 != i as int {
                            assert(self.tab@[i2] == old(self).tab@[i2]);
                        }
                    }
                    assert_maps_equal!(self.view(), old(self)@.remove(key@), k2 => {
                        if self.bucket_of(k2) == i as int {
                            if k2 == key@ {
                                if bucket_has_key(b1, k2) {
                                    let jj = choose|jj: int|
                                        0 <= jj < b1.len() && (#[trigger] b1[jj]).key@ == k2;
                                    if jj < j as int {
                                        assert(b0[jj].key@ == k2);
                                    } else {
                                        assert(b0[jj + 1].key@ == k2);
                                    }
                                }
                            } else {
                                if bucket_has_key(b0, k2) {
                                    let jj = choose|jj: int|
                                        0 <= jj < b0.len() && (#[trigger] b0[jj]).key@ == k2;
                                    assert(jj != j as int);
                                    lemma_bucket_value(b0, k2, jj);
                                    if jj < j as int {
                                        assert(b1[jj].key@ == k2);
                                        lemma_bucket_value(b1, k2, jj);
                                    } else {
                                        assert(b1[jj - 1].key@ == k2);
                                        lemma_bucket_value(b1, k2, jj - 1);
                                    }
                                } else {
                                    if bucket_has_key(b1, k2) {
                                        let jj = choose|jj: int|
                                            0 <= jj < b1.len() && (#[trigger] b1[jj]).key@ == k2;
                                        if jj < j as int {
                                            assert(b0[jj].key@ == k2);
                                        } else {
                                            assert(b0[jj + 1].key@ == k2);
                                        }
                                    }
                                }
                            }
                        } else {
                            assert(self.tab@[self.bucket_of(k2)] == old(
                                self,
                            ).tab@[self.bucket_of(k2)]);
                        }
                    });
                }
                return Some(entry.val);
            }
            j = j + 1;
        }
        proof {
            assert(!bucket_has_key(self.tab@[i as int]@, key@));
            assert_maps_equal!(self.view(), old(self)@.remove(key@), k2 => {});
        }
        None
    }

    /// All entries as owned pairs, in no particular order: every returned
    /// pair is in the map, each key of the map appears, and no key appears
    /// twice.
    #[verifier::rlimit(50)]
    pub fn iter(&self) -> (r: Vec<(Vec<u8>, V)>) where V: Copy
        requires
            self.wf(),
        ensures
            forall|x: int|
                0 <= x < r@.len() ==> self@.contains_key((#[trigger] r@[x]).0@) && self@[r@[x].0@]
                    == r@[x].1,
            forall|k: Seq<u8>|
                self@.contains_key(k) ==> exists|x: int|
                    0 <= x < r@.len() && (#[trigger] r@[x]).0@ == k,
            forall|x1: int, x2: int|
                0 <= x1 < x2 < r@.len() ==> (#[trigger] r@[x1]).0@ != (#[trigger] r@[x2]).0@,
    {
        let mut r: Vec<(Vec<u8>, V)> = Vec::new();
        let mut i: usize = 0;
        while i < BUCKET_COUNT
            invariant
                self.wf(),
                i <= BUCKET_COUNT,
                forall|x: int|
                    0 <= x < r@.len() ==> self.contains_spec((#[trigger] r@[x]).0@)
                        && self.value_spec(r@[x].0@) == r@[x].1,
                forall|k: Seq<u8>|
                    self.contains_spec(k) && self.bucket_of(k) < i ==> exists|x: int|
                        0 <= x < r@.len() && (#[trigger] r@[x]).0@ == k,
                forall|x: int| 0 <= x < r@.len() ==> self.bucket_of((#[trigger] r@[x]).0@) < i,
                forall|x1: int, x2: int|
                    0 <= x1 < x2 < r@.len() ==> (#[trigger] r@[x1]).0@ != (#[trigger] r@[x2]).0@,
            decreases BUCKET_COUNT - i,
        {
            let bucket: &Vec<Entry<V>> = &self.tab[i];
            let mut j: usize = 0;
            while j < bucket.len()
                invariant
                    self.wf(),
                    i < BUCKET_COUNT,
                    bucket@ == self.tab@[i as int]@,
                    j <= bucket@.len(),
                    forall|x: int|
                        0 <= x < r@.len() ==> self.contains_spec((#[trigger] r@[x]).0@)
                            && self.value_spec(r@[x].0@) == r@[x].1,
                    forall|k: Seq<u8>|
                        self.contains_spec(k) && self.bucket_of(k) < i ==> exists|x: int|
                            0 <= x < r@.len() && (#[trigger] r@[x]).0@ == k,
                    forall|jj: int|
                        0 <= jj < j ==> exists|x: int|
                            0 <= x < r@.len() && (#[trigger] r@[x]).0@ == (#[trigger] bucket@[jj]).key@,
                    forall|x: int|
                        0 <= x < r@.len() ==> self.bucket_of((#[trigger] r@[x]).0@) < i || exists|jj: int|
                            0 <= jj < j && (#[trigger] bucket@[jj]).key@ == r@[x].0@,
                    forall|x1: int, x2: int|
                        0 <= x1 < x2 < r@.len() ==> (#[trigger] r@[x1]).0@ != (#[trigger] r@[x2]).0@,
                decreases bucket@.len() - j,
            {
                let e = &bucket[j];
                let pair = (clone_key(&e.key), e.val);
                let ghost r0 = r@;
                r.push(pair);
                proof {
                    assert(self.bucket_wf(i as int));
                    assert(self.bucket_of(bucket@[j as int].key@) == i as int);
                    lemma_bucket_value(bucket@, bucket@[j as int].key@, j as int);
                    assert(r@[r@.len() - 1].0@ == bucket@[j as int].key@);
                    assert forall|k: Seq<u8>|
                        self.contains_spec(k) && self.bucket_of(k) < i implies exists|x: int|
                        0 <= x < r@.len() && (#[trigger] r@[x]).0@ == k by {
                        let x = choose|x: int| 0 <= x < r0.len() && (#[trigger] r0[x]).0@ == k;
                        assert(r@[x].0@ == k);
                    }
                    assert forall|jj: int| 0 <= jj < j + 1 implies exists|x: int|
                        0 <= x < r@.len() && (#[trigger] r@[x]).0@ == (#[trigger] bucket@[jj]).key@ by {
                        if jj < j {
                            let x = choose|x: int|
                                0 <= x < r0.len() && (#[trigger] r0[x]).0@ == bucket@[jj].key@;
                            assert(r@[x].0@ == bucket@[jj].key@);
                        } else {
                            assert(r@[r@.len() - 1].0@ == bucket@[jj].key@);
                        }
                    }
                    assert forall|x: int|
                        0 <= x < r@.len() implies self.bucket_of((#[trigger] r@[x]).0@) < i
                            || exists|jj: int|
                            0 <= jj < j + 1 && (#[trigger] bucket@[jj]).key@ == r@[x].0@ by {
                        if x < r@.len() - 1 && self.bucket_of(r@[x].0@) == i as int {
                            let jj = choose|jj: int|
                                0 <= jj < j && (#[trigger] bucket@[jj]).key@ == r0[x].0@;
                            assert(bucket@[jj].key@ == r@[x].0@);
                        }
                        if x == r@.len() - 1 {
                            assert(bucket@[j as int].key@ == r@[x].0@);
                        }
                    }
                    assert forall|x1: int, x2: int|
                        0 <= x1 < x2 < r@.len() implies (#[trigger] r@[x1]).0@ != (
                    #[trigger] r@[x2]).0@ by {
                        if x2 == r@.len() - 1 {
                            let knew = bucket@[j as int].key@;
                            if self.bucket_of(r@[x1].0@) < i {
                                assert(self.bucket_of(knew) == i as int);
                            } else {
                                let jj = choose|jj: int|
                                    0 <= jj < j && (#[trigger] bucket@[jj]).key@ == r0[x1].0@;
                                assert(bucket@[jj].key@ != bucket@[j as int].key@);
                            }
                        }
                    }
                }
                j = j + 1;
            }
            proof {
                assert forall|k: Seq<u8>|
                    self.contains_spec(k) && self.bucket_of(k) < i + 1 implies exists|x: int|
                    0 <= x < r@.len() && (#[trigger] r@[x]).0@ == k by {
                    if self.bucket_of(k) == i as int {
                        let jj = choose|jj: int|
                            0 <= jj < bucket@.len() && (#[trigger] bucket@[jj]).key@ == k;
                        assert(exists|x: int|
                            0 <= x < r@.len() && (#[trigger] r@[x]).0@ == bucket@[jj].key@);
                    }
                }
                assert forall|x: int|
                    0 <= x < r@.len() implies self.bucket_of((#[trigger] r@[x]).0@) < i + 1 by {
                    if self.bucket_of(r@[x].0@) >= i as int {
                        assert(self.bucket_wf(i as int));
                        let jj = choose|jj: int|
                            0 <= jj < bucket@.len() && (#[trigger] bucket@[jj]).key@ == r@[x].0@;
                        assert(self.tab@[i as int]@[jj] == bucket@[jj]);
                        assert(self.bucket_of(bucket@[jj].key@) == i as int);
                    }
                }
            }
            i = i + 1;
        }
        r
    }
}

impl<V> View for HashMap<V> {
    type V = Map<Seq<u8>, V>;

    open spec fn view(&self) -> Map<Seq<u8>, V> {
        Map::new(|k: Seq<u8>| self.contains_spec(k), |k: Seq<u8>| self.value_spec(k))
    }
}

} // verus!
