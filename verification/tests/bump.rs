use bump_allocator::bump::{align_down, align_up, AllocError, EarlyAllocator};

const PAGE: usize = 4096;
const BASE: usize = 1 << 20;

fn region() -> EarlyAllocator<PAGE> {
    let mut a = EarlyAllocator::<PAGE>::new();
    a.init(BASE, 65536);
    a
}

#[test]
fn align_helpers() {
    assert_eq!(align_down(4097, 4096), 4096);
    assert_eq!(align_down(4096, 4096), 4096);
    assert_eq!(align_down(4095, 4096), 0);
    assert_eq!(align_up(4097, 4096), 8192);
    assert_eq!(align_up(4096, 4096), 4096);
    assert_eq!(align_up(1, 4096), 4096);
    assert_eq!(align_up(0, 8), 0);
    assert_eq!(align_down(37, 1), 37);
    assert_eq!(align_up(37, 1), 37);
}

#[test]
fn fresh_allocator_is_zeroed() {
    let a = EarlyAllocator::<PAGE>::new();
    assert_eq!(a.total_bytes(), 0);
    assert_eq!(a.used_bytes(), 0);
    assert_eq!(a.available_bytes(), 0);
    assert_eq!(a.total_pages(), 0);
    assert_eq!(a.used_pages(), 0);
    assert_eq!(a.available_pages(), 0);
}

#[test]
fn alloc_before_init_is_out_of_memory() {
    let mut a = EarlyAllocator::<PAGE>::new();
    assert_eq!(a.alloc_bytes(1, 1), Err(AllocError::NoMemory));
}

#[test]
fn example_scenario() {
    let mut a = region();
    assert_eq!(a.total_bytes(), 0);
    assert_eq!(a.total_pages(), 0);

    let addr = a.alloc_bytes(8, 8).unwrap();
    assert_eq!(addr, BASE);
    assert_eq!(a.total_bytes(), PAGE);
    assert_eq!(a.used_bytes(), 8);
    assert_eq!(a.available_bytes(), PAGE - 8);

    let pages = a.alloc_pages(2, PAGE).unwrap();
    assert_eq!(pages, BASE + 65536 - 2 * PAGE);
    assert_eq!(a.total_pages(), 2);
    assert_eq!(a.used_pages(), 2);
    assert_eq!(a.available_pages(), 0);

    a.dealloc(addr, 8, 8);
    assert_eq!(a.used_bytes(), 0);
    assert_eq!(a.total_bytes(), PAGE);
}

#[test]
fn byte_addresses_are_aligned_and_disjoint() {
    let mut a = region();
    let first = a.alloc_bytes(10, 8).unwrap();
    let second = a.alloc_bytes(16, 64).unwrap();
    let third = a.alloc_bytes(1, 2).unwrap();
    assert_eq!(first % 8, 0);
    assert_eq!(second % 64, 0);
    assert_eq!(third % 2, 0);
    assert!(first + 10 <= second);
    assert!(second + 16 <= third);
}

#[test]
fn large_byte_request_clears_ceiling_on_retry() {
    let mut a = region();
    // One growth step per call: the first try fails but keeps the grown
    // ceiling, and retrying eventually clears the candidate end.
    assert_eq!(a.alloc_bytes(2 * PAGE, 1), Err(AllocError::NoMemory));
    assert_eq!(a.total_bytes(), PAGE);
    assert_eq!(a.used_bytes(), 0);
    assert_eq!(a.alloc_bytes(2 * PAGE, 1), Ok(BASE));
    assert_eq!(a.total_bytes(), 2 * PAGE);
    assert_eq!(a.used_bytes(), 2 * PAGE);
}

#[test]
fn invalid_page_alignment_is_rejected_without_change() {
    let mut a = region();
    a.alloc_bytes(8, 8).unwrap();
    let used = a.used_bytes();
    assert_eq!(a.alloc_pages(1, 100), Err(AllocError::InvalidParam));
    assert_eq!(a.alloc_pages(1, PAGE - 1), Err(AllocError::InvalidParam));
    assert_eq!(a.used_bytes(), used);
    assert_eq!(a.total_pages(), 0);
    assert_eq!(a.used_pages(), 0);
}

#[test]
fn page_allocations_descend_without_overlap() {
    let mut a = region();
    let p1 = a.alloc_pages(1, PAGE).unwrap();
    let p2 = a.alloc_pages(2, PAGE).unwrap();
    assert_eq!(p1, BASE + 65536 - PAGE);
    assert_eq!(p2, BASE + 65536 - 3 * PAGE);
    assert!(p2 + 2 * PAGE <= p1);
    assert_eq!(a.used_pages(), 3);
}

#[test]
fn wide_page_alignment_is_honored_in_page_units() {
    let mut a = region();
    // 8192-byte alignment becomes two page units; the candidate address is
    // rounded down to a multiple of that unit count.
    let p = a.alloc_pages(1, 2 * PAGE).unwrap();
    assert_eq!(p % 2, 0);
    assert!(p + PAGE <= BASE + 65536);
}

#[test]
fn exhaustion_is_out_of_memory_without_partial_change() {
    let mut a = EarlyAllocator::<PAGE>::new();
    a.init(PAGE, 2 * PAGE);
    let b = a.alloc_bytes(1, 1).unwrap();
    assert_eq!(b, PAGE);
    let p = a.alloc_pages(1, PAGE).unwrap();
    assert_eq!(p, 2 * PAGE);
    // The gap is gone: the byte ceiling cannot grow, the page floor cannot
    // fall, and failing calls move no frontier.
    let used_b = a.used_bytes();
    let used_p = a.used_pages();
    assert_eq!(a.alloc_bytes(PAGE, 1), Err(AllocError::NoMemory));
    assert_eq!(a.alloc_pages(1, PAGE), Err(AllocError::NoMemory));
    assert_eq!(a.used_bytes(), used_b);
    assert_eq!(a.used_pages(), used_p);
    // What still fits under the granted ceiling keeps working.
    let c = a.alloc_bytes(PAGE - 2, 1).unwrap();
    assert_eq!(c, PAGE + 1);
}

#[test]
fn byte_zone_resets_when_count_returns_to_zero() {
    let mut a = region();
    let first = a.alloc_bytes(100, 8).unwrap();
    let second = a.alloc_bytes(100, 8).unwrap();
    assert!(second > first);
    a.dealloc(first, 100, 8);
    a.dealloc(second, 100, 8);
    assert_eq!(a.used_bytes(), 0);
    let again = a.alloc_bytes(100, 8).unwrap();
    assert_eq!(again, BASE);
    // The ceiling was kept across the reset.
    assert_eq!(a.total_bytes(), PAGE);
}

#[test]
fn page_zone_frontier_resets_when_count_returns_to_zero() {
    let mut a = region();
    let p1 = a.alloc_pages(3, PAGE).unwrap();
    a.dealloc_pages(p1, 3);
    assert_eq!(a.used_pages(), 0);
    // The floor is never retracted, but the frontier rests at `end` again.
    assert_eq!(a.total_pages(), 3);
    assert_eq!(a.available_pages(), 3);
    let p2 = a.alloc_pages(1, PAGE).unwrap();
    assert_eq!(p2, BASE + 65536 - PAGE);
}

#[test]
fn add_memory_is_accepted_and_ignored() {
    let mut a = region();
    let before = (a.total_bytes(), a.total_pages());
    assert_eq!(a.add_memory(0, 123456), Ok(()));
    assert_eq!((a.total_bytes(), a.total_pages()), before);
}
