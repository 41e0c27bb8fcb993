use hypatia::allocator::{BumpAlloc, SliceHeap};

#[test]
fn three_pages_then_exhausted() {
    // a 12 KiB region yields three distinct non-overlapping pages
    let heap = SliceHeap::new(0x10_0000, 12288);
    let mut bump = BumpAlloc::new(heap);
    let a = bump.alloc_bytes(4096, 4096).expect("first page");
    let b = bump.alloc_bytes(4096, 4096).expect("second page");
    let c = bump.alloc_bytes(4096, 4096).expect("third page");
    assert_eq!(a.len, 4096);
    assert_eq!(a.base, 0x10_0000);
    assert_eq!(b.base, 0x10_1000);
    assert_eq!(c.base, 0x10_2000);
    assert!(a.base + a.len <= b.base);
    assert!(b.base + b.len <= c.base);
    assert!(bump.alloc_bytes(4096, 4096).is_none());
}

#[test]
fn absolute_alignment() {
    // alignment is computed from the absolute address, not the offset
    let heap = SliceHeap::new(0x10_0800, 8192);
    let mut bump = BumpAlloc::new(heap);
    let a = bump.alloc_bytes(4096, 16).expect("aligned block");
    assert_eq!(a.base, 0x10_1000);
    assert_eq!(a.len, 16);
}

#[test]
fn alloc_page_is_page_aligned() {
    let heap = SliceHeap::new(0x20_0000, 16384);
    let mut bump = BumpAlloc::new(heap);
    let a = bump.alloc_page().expect("a page");
    assert_eq!(a.base, 0x20_0000);
    assert_eq!(a.len, 4096);
}
