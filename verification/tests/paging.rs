use hypatia::vm::{AddressSpace, FrameSupply, MapError, VRange, PTE, PTE_NOCACHE, PTE_NX,
    PTE_PRESENT, PTE_USER, PTE_WRITE};
use hypatia::{HPA, PF4K, V4KA};

fn fresh_space() -> AddressSpace {
    AddressSpace::new(PF4K::new(HPA::new(0x1000)))
}

fn supply() -> FrameSupply {
    FrameSupply::new(0x10_0000, 0x40_0000)
}

fn range(start: u64, end: u64) -> VRange {
    VRange { start: V4KA::new(start), end: V4KA::new(end) }
}

#[test]
fn pte_debug() {
    let pte = PTE::new(HPA::new(0xabc000), PTE_NX | PTE_USER | PTE_WRITE | PTE_PRESENT);
    assert_eq!(pte.describe(), "-:0xabc000:-----UWR");

    let pte = PTE::new(HPA::new(0xfff000), PTE_NOCACHE | PTE_USER | PTE_WRITE | PTE_PRESENT);
    assert_eq!(pte.describe(), "X:0xfff000:----C\u{336}UWR");
}

#[test]
fn pte_bits() {
    let mut pte = PTE::new(HPA::new(0x123000), PTE_WRITE);
    assert!(!pte.is_present());
    assert!(!pte.is_zero());
    pte.enable();
    assert!(pte.is_present());
    assert_eq!(pte.pfa().addr(), 0x123000);
    assert!(!pte.is_big());
    pte.disable();
    assert!(!pte.is_present());
    pte.clear();
    assert!(pte.is_zero());
}

#[test]
fn map_translate_round_trip() {
    let mut s = fresh_space();
    let mut sup = supply();
    let ranges = vec![range(0x40_0000, 0x40_1000)];
    s.make_ranges(&ranges, &mut sup).expect("made ranges");
    s.map_leaf(PF4K::new(HPA::new(0x123_000)), V4KA::new(0x40_0000), true, true, true)
        .expect("mapped a leaf");
    let hpa = s.translate(0x40_0100).expect("translates");
    assert_eq!(hpa.addr(), 0x123_100);
}

#[test]
fn make_ranges_then_map_leaf() {
    let mut s = fresh_space();
    let mut sup = supply();
    let ranges = vec![range(0x1000, 0x2000)];
    s.make_ranges(&ranges, &mut sup).expect("made ranges");
    let before = sup;
    s.map_leaf(PF4K::new(HPA::new(0xABC_000)), V4KA::new(0x1000), true, true, false)
        .expect("mapped a leaf");
    // no further interior nodes were allocated
    let _ = before;
    let hpa = s.translate(0x1000).expect("translates");
    assert_eq!(hpa.addr(), 0xABC_000);
}

#[test]
fn duplicate_map() {
    let mut s = fresh_space();
    let mut sup = supply();
    let ranges = vec![range(0x1000, 0x2000)];
    s.make_ranges(&ranges, &mut sup).expect("made ranges");
    s.map_leaf(PF4K::new(HPA::new(0xABC_000)), V4KA::new(0x1000), true, true, false)
        .expect("mapped a leaf");
    let second = s.map_leaf(PF4K::new(HPA::new(0xDEF_000)), V4KA::new(0x1000), true, true, false);
    assert_eq!(second, Err(MapError::AlreadyMapped));
}

#[test]
fn forbidden_window() {
    let mut s = fresh_space();
    let r = s.map_leaf(PF4K::new(HPA::new(0)), V4KA::new(0xFFFF_FF80_0000_0000), true, true, true);
    assert_eq!(r, Err(MapError::ForbiddenRegion));
}

#[test]
fn allocator_exhaustion() {
    let mut s = fresh_space();
    // room for the L3 table only, not the L2 and L1 tables
    let mut sup = FrameSupply::new(0x10_0000, 0x10_1000);
    let r = s.map(PF4K::new(HPA::new(0x5000)), PTE_PRESENT, V4KA::new(0x1000), &mut sup, true);
    assert_eq!(r, Err(MapError::AllocatorFailed));
}

#[test]
fn unmap_then_translate_none() {
    let mut s = fresh_space();
    let mut sup = supply();
    let ranges = vec![range(0x1000, 0x2000)];
    s.make_ranges(&ranges, &mut sup).expect("made ranges");
    s.map_leaf(PF4K::new(HPA::new(0xABC_000)), V4KA::new(0x1000), true, true, false)
        .expect("mapped a leaf");
    assert!(s.translate(0x1000).is_some());
    s.unmap(V4KA::new(0x1000));
    assert!(s.translate(0x1000).is_none());
    assert!(s.translate(0x1FFF).is_none());
}

#[test]
fn side_load_round_trip() {
    let mut s = fresh_space();
    let mut sup = supply();
    let root = s.new_foreign_root(&mut sup).expect("a foreign root");
    s.side_load(root).expect("side-loaded");
    let back = s.unload_side().expect("unloaded");
    assert_eq!(back.pfa().addr(), root.pfa().addr());
    // slot 510 is empty again
    let empty = s.unload_side().expect("unloaded again");
    assert_eq!(empty.pfa().addr(), 0);
}

#[test]
fn shared_ranges_mirror() {
    let mut s = fresh_space();
    let mut sup = supply();
    let root = s.new_foreign_root(&mut sup).expect("a foreign root");
    let ranges = vec![range(0x40_0000, 0x40_2000)];
    let back = s.make_shared_ranges(&ranges, root, &mut sup).expect("shared");
    assert_eq!(back.pfa().addr(), root.pfa().addr());
    // the interior structures now exist: a leaf maps without allocation
    s.map_leaf(PF4K::new(HPA::new(0x222_000)), V4KA::new(0x40_1000), true, false, false)
        .expect("mapped a leaf");
    assert_eq!(s.translate(0x40_1000).unwrap().addr(), 0x222_000);
}

#[test]
fn unmap_root_ranges_clears() {
    let mut s = fresh_space();
    let mut sup = supply();
    let ranges = vec![range(0x1000, 0x2000)];
    s.make_ranges(&ranges, &mut sup).expect("made ranges");
    s.map_leaf(PF4K::new(HPA::new(0xABC_000)), V4KA::new(0x1000), true, true, false)
        .expect("mapped a leaf");
    s.unmap_root_ranges(&ranges);
    assert!(s.translate(0x1000).is_none());
}

#[test]
fn translate_unmapped_is_none() {
    let s = fresh_space();
    assert!(s.translate(0x40_0000).is_none());
    assert!(s.translate(0).is_none());
}

#[test]
fn non_readable_leaf_does_not_translate() {
    let mut s = fresh_space();
    let mut sup = supply();
    let ranges = vec![range(0x1000, 0x2000)];
    s.make_ranges(&ranges, &mut sup).expect("made ranges");
    s.map_leaf(PF4K::new(HPA::new(0xABC_000)), V4KA::new(0x1000), false, true, false)
        .expect("installed the leaf");
    assert!(s.translate(0x1000).is_none());
}

#[test]
fn map_with_allocation() {
    let mut s = fresh_space();
    let mut sup = supply();
    let before = s.address_space_root().addr();
    s.map(PF4K::new(HPA::new(0x77_7000)), PTE_PRESENT | PTE_WRITE, V4KA::new(0x123_4000),
        &mut sup, true)
        .expect("mapped with fresh interior tables");
    assert_eq!(s.translate(0x123_4FFF).unwrap().addr(), 0x77_7FFF);
    assert_eq!(s.address_space_root().addr(), before);
}

#[test]
fn shared_subtree_translates_through_both_roots() {
    let mut s = fresh_space();
    let mut sup = supply();
    let proto = s.new_foreign_root(&mut sup).expect("a foreign root");
    let ranges = vec![range(0x40_0000, 0x40_1000)];
    let proto = s.make_shared_ranges(&ranges, proto, &mut sup).expect("shared");
    s.map_leaf(PF4K::new(HPA::new(0x123_000)), V4KA::new(0x40_0000), true, true, false)
        .expect("mapped a leaf");
    // without a side-loaded space the side walk misses
    assert!(s.side_translate(0x40_0000).is_none());
    // once the prototype is side-loaded, the shared subtree carries the
    // same mapping
    s.side_load(proto).expect("side-loaded");
    assert_eq!(s.side_translate(0x40_0000).unwrap().addr(), 0x123_000);
    assert_eq!(s.side_translate(0x40_0ABC).unwrap().addr(), 0x123_ABC);
    s.unload_side().expect("unloaded");
    assert!(s.side_translate(0x40_0000).is_none());
}

#[test]
fn side_map_round_trip() {
    let mut s = fresh_space();
    let mut sup = supply();
    let proto = s.new_foreign_root(&mut sup).expect("a foreign root");
    s.side_load(proto).expect("side-loaded");
    s.side_map(PF4K::new(HPA::new(0x321_000)), PTE_PRESENT | PTE_WRITE, V4KA::new(0x80_0000),
        &mut sup, true)
        .expect("mapped into the side space");
    assert_eq!(s.side_translate(0x80_0ABC).unwrap().addr(), 0x321_ABC);
    // the current space is untouched by a side mapping
    assert!(s.translate(0x80_0000).is_none());
    // mapping the same side page again is refused
    let again = s.side_map(PF4K::new(HPA::new(0x322_000)), PTE_PRESENT, V4KA::new(0x80_0000),
        &mut sup, true);
    assert_eq!(again, Err(MapError::AlreadyMapped));
    // clearing the side root slot makes the side walk miss
    s.unmap_side_root_ranges(&vec![range(0x80_0000, 0x80_1000)]);
    assert!(s.side_translate(0x80_0000).is_none());
    s.unload_side().expect("unloaded");
}
