use crash_capture::page_allocator::{PageAllocator, Pointer, PAGE_HEADER_SIZE};
use crash_capture::page_vec::{Allocator, PageVec};

const PAGE: usize = 4096;

#[test]
fn page_allocator_setup() {
    let pa = PageAllocator::new(PAGE);
    assert_eq!(0, pa.pages_allocated());
}

#[test]
fn setup() {
    let pa = PageAllocator::new(PAGE);
    assert_eq!(0, pa.pages_allocated());
    assert_eq!(0, pa.block_count());
}

#[test]
fn page_allocator_small_objects() {
    let mut pa = PageAllocator::new(PAGE);
    for i in 1..1024 {
        let p = pa.alloc_raw(i).unwrap();
        assert!(pa.owns_pointer(p));
        assert!(pa.owns_pointer(Pointer { block: p.block, offset: p.offset + i - 1 }));
    }
}

#[test]
fn page_allocator_large_object() {
    let mut pa = PageAllocator::new(PAGE);
    pa.alloc_raw(10 * 1024).unwrap();
    assert_eq!((10 * 1024 / PAGE) + 1, pa.pages_allocated());
    for i in 1..10 {
        let p = pa.alloc_raw(i).unwrap();
        assert!(pa.owns_pointer(p));
    }
}

#[test]
fn allocations_do_not_overlap() {
    let mut pa = PageAllocator::new(PAGE);
    let mut regions: Vec<(usize, usize, usize)> = Vec::new();
    for pages in 1..=4usize {
        for size in [1usize, 7, 100, pages * PAGE - 1, pages * PAGE] {
            let p = pa.alloc_raw(size).unwrap();
            regions.push((p.block, p.offset, size));
        }
    }
    for (i, a) in regions.iter().enumerate() {
        assert!(a.1 >= PAGE_HEADER_SIZE);
        assert!(a.1 + a.2 <= pa.pages_in_block(a.0) * PAGE);
        for b in regions.iter().skip(i + 1) {
            assert!(a.0 != b.0 || a.1 + a.2 <= b.1 || b.1 + b.2 <= a.1);
        }
    }
}

#[test]
fn owns_only_its_blocks() {
    let mut pa = PageAllocator::new(PAGE);
    assert!(!pa.owns_pointer(Pointer { block: 0, offset: 0 }));
    let p = pa.alloc_raw(10).unwrap();
    assert_eq!(p, Pointer { block: 0, offset: PAGE_HEADER_SIZE });
    assert!(pa.owns_pointer(Pointer { block: 0, offset: PAGE - 1 }));
    assert!(!pa.owns_pointer(Pointer { block: 0, offset: PAGE }));
    assert!(!pa.owns_pointer(Pointer { block: 1, offset: 0 }));
}

#[test]
fn exact_page_fill_starts_new_block() {
    let mut pa = PageAllocator::new(PAGE);
    pa.alloc_raw(PAGE - PAGE_HEADER_SIZE).unwrap();
    assert_eq!(pa.pages_needed(1), Some(1));
    let p = pa.alloc_raw(1).unwrap();
    assert_eq!(p.block, 1);
    assert_eq!(pa.pages_allocated(), 2);
}

#[test]
fn small_request_reuses_current_page() {
    let mut pa = PageAllocator::new(PAGE);
    let a = pa.alloc_raw(100).unwrap();
    assert_eq!(pa.pages_needed(50), Some(0));
    let b = pa.alloc_raw(50).unwrap();
    assert_eq!(b, Pointer { block: a.block, offset: a.offset + 100 });
    assert_eq!(pa.pages_allocated(), 1);
}

#[test]
fn page_vec_setup() {
    let empty = PageVec::<i32>::new_in(Allocator::new(PAGE));
    assert!(empty.is_empty());
    assert_eq!(empty.len(), 0);
    assert_eq!(empty.capacity(), 0);
}

#[test]
fn page_vec_simple() {
    let allocator = Allocator::new(PAGE);
    assert_eq!(allocator.pages_allocated(), 0);

    let mut v = PageVec::new_in(allocator);
    for i in 0..256usize {
        v.push(i);
        assert_eq!(Some(&i), v.last());
        assert_eq!(v.last(), v.get(i));
        assert_eq!(Some(&i), v.get(i));
    }

    assert!(!v.is_empty());
    assert_eq!(v.len(), 256);
    assert_eq!(1, v.alloc_ref().pages_allocated());

    for (i, x) in v.as_slice().iter().enumerate() {
        assert_eq!(i, *x);
    }
}

#[test]
fn sanity_check() {
    let mut v = PageVec::new_in(Allocator::new(PAGE));
    assert_eq!(0, v.alloc_ref().pages_allocated());
    v.push(1i32);
    assert_eq!(1, v.alloc_ref().pages_allocated());
    assert!(v.alloc_ref().owns_pointer(v.as_ptr().unwrap()));
}

#[test]
fn capacity_doubles_from_minimum() {
    let mut v = PageVec::new_in(Allocator::new(PAGE));
    v.push(1u64);
    assert_eq!(v.capacity(), 4);
    for i in 0..4u64 {
        v.push(i);
    }
    assert_eq!(v.capacity(), 8);
    let mut bytes = PageVec::new_in(Allocator::new(PAGE));
    bytes.push(1u8);
    assert_eq!(bytes.capacity(), 8);
}

#[test]
fn page_vec_matches_reference_sequence() {
    let mut v = PageVec::new_in(Allocator::new(PAGE));
    let mut model: Vec<u32> = Vec::new();
    let mut seed: u32 = 12345;
    for _ in 0..500 {
        seed = seed.wrapping_mul(1103515245).wrapping_add(12345);
        let op = (seed >> 16) % 4;
        let val = seed >> 8;
        match op {
            0 => {
                v.push(val);
                model.push(val);
            }
            1 => {
                assert_eq!(v.pop(), model.pop());
            }
            2 => {
                let idx = (val as usize) % (model.len() + 1);
                v.insert(idx, val);
                model.insert(idx, val);
            }
            _ => {
                if !model.is_empty() {
                    let idx = (val as usize) % model.len();
                    assert_eq!(v.remove(idx), model.remove(idx));
                }
            }
        }
        assert_eq!(v.len(), model.len());
        assert!(v.capacity() >= v.len());
    }
    assert_eq!(v.as_slice(), model.as_slice());
}

#[test]
fn retain_keeps_order() {
    let mut v = PageVec::new_in(Allocator::new(PAGE));
    for i in 0..10u32 {
        v.push(i);
    }
    v.retain(|x: &u32| x % 3 != 0);
    assert_eq!(v.as_slice(), &[1, 2, 4, 5, 7, 8]);
}

#[test]
fn resize_and_truncate() {
    let mut v = PageVec::new_in(Allocator::new(PAGE));
    v.resize(5, 7u16);
    assert_eq!(v.as_slice(), &[7, 7, 7, 7, 7]);
    v.truncate(2);
    assert_eq!(v.as_slice(), &[7, 7]);
    v.resize_with(4, || 3u16);
    assert_eq!(v.as_slice(), &[7, 7, 3, 3]);
    v.extend_from_slice(&[9, 8]);
    assert_eq!(v.as_slice(), &[7, 7, 3, 3, 9, 8]);
    v.clear();
    assert!(v.is_empty());
}
