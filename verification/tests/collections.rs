use bump_allocator::collections::HashMap;

#[test]
fn get_on_empty_is_none() {
    let m: HashMap<u32> = HashMap::new();
    assert!(m.get(&vec![1, 2, 3]).is_none());
    assert!(m.get(&Vec::new()).is_none());
}

#[test]
fn insert_then_get() {
    let mut m: HashMap<u32> = HashMap::new();
    m.insert(vec![1, 2, 3], 7);
    m.insert(vec![9], 8);
    m.insert(Vec::new(), 9);
    assert_eq!(m.get(&vec![1, 2, 3]), Some(&7));
    assert_eq!(m.get(&vec![9]), Some(&8));
    assert_eq!(m.get(&Vec::new()), Some(&9));
    assert_eq!(m.get(&vec![1, 2]), None);
    assert_eq!(m.get(&vec![3, 2, 1]), None);
}

#[test]
fn keys_compare_by_contents() {
    let mut m: HashMap<&'static str> = HashMap::new();
    let mut k1: Vec<u8> = Vec::new();
    k1.push(42);
    m.insert(k1, "answer");
    let mut k2: Vec<u8> = Vec::new();
    k2.push(42);
    assert_eq!(m.get(&k2), Some(&"answer"));
}

#[test]
fn insert_replaces_existing_value() {
    let mut m: HashMap<u32> = HashMap::new();
    m.insert(vec![5, 5], 1);
    m.insert(vec![5, 5], 2);
    assert_eq!(m.get(&vec![5, 5]), Some(&2));
    assert_eq!(m.remove(&vec![5, 5]), Some(2));
    assert_eq!(m.get(&vec![5, 5]), None);
}

#[test]
fn remove_returns_value_once() {
    let mut m: HashMap<u32> = HashMap::new();
    m.insert(vec![1], 10);
    m.insert(vec![2], 20);
    assert_eq!(m.remove(&vec![1]), Some(10));
    assert_eq!(m.remove(&vec![1]), None);
    assert_eq!(m.get(&vec![2]), Some(&20));
}

#[test]
fn colliding_keys_coexist() {
    // With a fixed bucket count, more keys than buckets force collisions;
    // every key must still be stored and found independently.
    let mut m: HashMap<usize> = HashMap::new();
    for b in 0..64usize {
        m.insert(vec![b as u8], b);
    }
    for b in 0..64usize {
        assert_eq!(m.get(&vec![b as u8]), Some(&b));
    }
    for b in (0..64usize).step_by(2) {
        assert_eq!(m.remove(&vec![b as u8]), Some(b));
    }
    for b in 0..64usize {
        if b % 2 == 0 {
            assert_eq!(m.get(&vec![b as u8]), None);
        } else {
            assert_eq!(m.get(&vec![b as u8]), Some(&b));
        }
    }
}

#[test]
fn iter_lists_every_entry() {
    let mut m: HashMap<u32> = HashMap::new();
    m.insert(vec![1], 10);
    m.insert(vec![2], 20);
    m.insert(vec![3, 4], 34);
    let pairs = m.iter();
    assert_eq!(pairs.len(), 3);
    for want in [(vec![1u8], 10u32), (vec![2], 20), (vec![3, 4], 34)] {
        assert!(pairs.iter().any(|p| p.0 == want.0 && p.1 == want.1));
    }
}

#[test]
fn iter_on_empty_is_empty() {
    let m: HashMap<u32> = HashMap::new();
    assert!(m.iter().is_empty());
}
