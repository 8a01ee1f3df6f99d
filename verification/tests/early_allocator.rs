use bump_allocator::{AllocError, EarlyAllocator};

const PAGE: usize = 0x1000;

type Alloc4k = EarlyAllocator<PAGE>;

fn assert_ordered(a: &Alloc4k) {
    assert!(a.start <= a.b_pos);
    assert!(a.b_pos <= a.p_pos);
    assert!(a.p_pos <= a.end);
}

#[test]
fn init_aligns_region() {
    let mut a = Alloc4k::new();
    a.init(0x1234, 0x3000);
    assert_eq!(a.start, 0x2000);
    assert_eq!(a.end, 0x5000);
    assert_eq!(a.start % PAGE, 0);
    assert_eq!(a.end % PAGE, 0);
    assert!(a.start <= a.end);
    assert_eq!(a.total_pages(), 3);
    assert_eq!(a.used_pages(), 0);
    assert_eq!(a.used_bytes(), 0);
    assert_ordered(&a);
}

#[test]
fn init_scenario_two_pages() {
    let mut a = Alloc4k::new();
    a.init(0x1000, 0x2000);
    assert_eq!(a.total_pages(), 2);
    assert_eq!(a.total_bytes(), 0x2000);

    let first = a.alloc_bytes(8, 8);
    assert_eq!(first, Ok(0x1000));
    assert_eq!(a.used_bytes(), 8);

    let second = a.alloc_bytes(8, 8);
    assert_eq!(second, Ok(0x1008));
    assert_eq!(a.used_bytes(), 16);

    a.dealloc(0x1000, 8, 8);
    assert_eq!(a.b_pos, 0x1008 + 8);
    assert_eq!(a.bytes_count, 1);
    assert_eq!(a.used_bytes(), 16);

    a.dealloc(0x1008, 8, 8);
    assert_eq!(a.b_pos, 0x1000);
    assert_eq!(a.bytes_count, 0);
    assert_eq!(a.used_bytes(), 0);
    assert_ordered(&a);
}

#[test]
fn alloc_bytes_respects_alignment() {
    let mut a = Alloc4k::new();
    a.init(0x1000, 0x2000);
    let odd = a.alloc_bytes(3, 1);
    assert_eq!(odd, Ok(0x1000));
    let aligned = a.alloc_bytes(5, 16).unwrap();
    assert_eq!(aligned % 16, 0);
    assert_eq!(aligned, 0x1010);
    assert!(a.start <= aligned);
    assert!(aligned < a.p_pos);
    assert_ordered(&a);
}

#[test]
fn alloc_bytes_exhaustion_changes_nothing() {
    let mut a = Alloc4k::new();
    a.init(0x1000, 0x1000);
    let r = a.alloc_bytes(0x800, 8);
    assert_eq!(r, Ok(0x1000));

    let before = (a.start, a.end, a.b_pos, a.p_pos, a.bytes_count, a.used_pages, a.total_pages);
    let r = a.alloc_bytes(0x801, 8);
    assert_eq!(r, Err(AllocError::NoMemory));
    let after = (a.start, a.end, a.b_pos, a.p_pos, a.bytes_count, a.used_pages, a.total_pages);
    assert_eq!(before, after);
    assert_ordered(&a);
}

#[test]
fn alloc_bytes_huge_alignment_fails() {
    let mut a = Alloc4k::new();
    a.init(0x1000, 0x2000);
    let r = a.alloc_bytes(1, 1usize << 63);
    assert_eq!(r, Err(AllocError::NoMemory));
    assert_eq!(a.b_pos, 0x1000);
    assert_eq!(a.bytes_count, 0);
}

#[test]
fn alloc_pages_basic() {
    let mut a = Alloc4k::new();
    a.init(0x1000, 0x3000);
    let r = a.alloc_pages(1, PAGE);
    assert_eq!(r, Ok(0x3000));
    assert_eq!(a.used_pages(), 1);
    assert_eq!(a.available_pages(), 2);
    let r = a.alloc_pages(2, 8);
    assert_eq!(r, Ok(0x1000));
    assert_eq!(a.used_pages(), 3);
    assert_eq!(a.available_pages(), 0);
    assert_ordered(&a);
}

#[test]
fn alloc_pages_invalid_alignment_changes_nothing() {
    let mut a = Alloc4k::new();
    a.init(0x1000, 0x2000);
    let before = (a.p_pos, a.used_pages, a.available_pages());

    let r = a.alloc_pages(1, 3);
    assert_eq!(r, Err(AllocError::InvalidParam));
    assert_eq!((a.p_pos, a.used_pages, a.available_pages()), before);

    let r = a.alloc_pages(1, 0);
    assert_eq!(r, Err(AllocError::InvalidParam));
    let r = a.alloc_pages(1, 2 * PAGE);
    assert_eq!(r, Err(AllocError::InvalidParam));
    assert_eq!((a.p_pos, a.used_pages, a.available_pages()), before);
    assert_ordered(&a);
}

#[test]
fn alloc_pages_exhaustion_changes_nothing() {
    let mut a = Alloc4k::new();
    a.init(0x1000, 0x2000);
    let before = (a.start, a.end, a.b_pos, a.p_pos, a.bytes_count, a.used_pages, a.total_pages);
    let r = a.alloc_pages(3, 8);
    assert_eq!(r, Err(AllocError::NoMemory));
    let after = (a.start, a.end, a.b_pos, a.p_pos, a.bytes_count, a.used_pages, a.total_pages);
    assert_eq!(before, after);

    let r = a.alloc_pages(usize::MAX / PAGE + 2, 8);
    assert_eq!(r, Err(AllocError::NoMemory));
    assert_eq!(a.used_pages(), 0);
    assert_ordered(&a);
}

#[test]
fn dealloc_pages_is_a_no_op() {
    let mut a = Alloc4k::new();
    a.init(0x1000, 0x3000);
    let base = a.alloc_pages(2, 8).unwrap();
    let before = (a.start, a.end, a.b_pos, a.p_pos, a.bytes_count, a.used_pages, a.total_pages);
    let avail = a.available_pages();

    a.dealloc_pages(base, 2);
    a.dealloc_pages(base, 2);
    a.dealloc_pages(0, 0);
    a.dealloc_pages(usize::MAX, usize::MAX);

    let after = (a.start, a.end, a.b_pos, a.p_pos, a.bytes_count, a.used_pages, a.total_pages);
    assert_eq!(before, after);
    assert_eq!(a.available_pages(), avail);
    assert_eq!(a.used_pages(), 2);
}

#[test]
fn alloc_dealloc_round_trip() {
    let mut a = Alloc4k::new();
    a.init(0x1000, 0x2000);
    for _ in 0..5 {
        let addr = a.alloc_bytes(16, 16).unwrap();
        assert_eq!(addr, 0x1000);
        a.dealloc(addr, 16, 16);
        assert_eq!(a.b_pos, a.start);
        assert_eq!(a.bytes_count, 0);
    }
}

#[test]
fn byte_and_page_ranges_disjoint() {
    let mut a = Alloc4k::new();
    a.init(0x1000, 0x8000);
    let mut byte_ranges: Vec<(usize, usize)> = Vec::new();
    let mut page_ranges: Vec<(usize, usize)> = Vec::new();

    let b1 = a.alloc_bytes(100, 8).unwrap();
    byte_ranges.push((b1, 100));
    let p1 = a.alloc_pages(1, PAGE).unwrap();
    page_ranges.push((p1, PAGE));
    let b2 = a.alloc_bytes(50, 4).unwrap();
    byte_ranges.push((b2, 50));
    let p2 = a.alloc_pages(2, 8).unwrap();
    page_ranges.push((p2, 2 * PAGE));
    let b3 = a.alloc_bytes(4096, 64).unwrap();
    byte_ranges.push((b3, 4096));

    for &(bs, bl) in &byte_ranges {
        for &(ps, pl) in &page_ranges {
            assert!(bs + bl <= ps || ps + pl <= bs);
        }
    }
    assert_ordered(&a);
}

#[test]
fn add_memory_is_unsupported() {
    let mut a = Alloc4k::new();
    a.init(0x1000, 0x2000);
    let before = (a.start, a.end, a.b_pos, a.p_pos, a.bytes_count, a.used_pages, a.total_pages);
    assert_eq!(a.add_memory(0x8000, 0x1000), Err(AllocError::NoMemory));
    let after = (a.start, a.end, a.b_pos, a.p_pos, a.bytes_count, a.used_pages, a.total_pages);
    assert_eq!(before, after);
}

#[test]
fn degenerate_region_has_zero_capacity() {
    let mut a = Alloc4k::new();
    a.init(0x1800, 0x100);
    assert_eq!(a.start, 0x2000);
    assert_eq!(a.end, 0x2000);
    assert_eq!(a.total_pages(), 0);
    assert_eq!(a.total_bytes(), 0);
    assert_eq!(a.alloc_bytes(1, 1), Err(AllocError::NoMemory));
    assert_eq!(a.alloc_pages(1, 1), Err(AllocError::NoMemory));
    assert_ordered(&a);
}

#[test]
fn byte_observations_track_frontiers() {
    let mut a = Alloc4k::new();
    a.init(0x1000, 0x4000);
    assert_eq!(a.total_bytes(), 0x4000);
    assert_eq!(a.used_bytes(), 0);
    assert_eq!(a.available_bytes(), 0x4000);

    a.alloc_bytes(0x100, 8).unwrap();
    assert_eq!(a.used_bytes(), 0x100);
    assert_eq!(a.available_bytes(), 0x3f00);

    a.alloc_pages(1, PAGE).unwrap();
    assert_eq!(a.available_bytes(), 0x2f00);
    assert_eq!(a.total_bytes(), 0x4000);
}
