use hypatia::vm::{Level1, Level2, Level3, Level4, BASE_ADDRESS_L1, BASE_ADDRESS_L2,
    BASE_ADDRESS_L3, BASE_ADDRESS_L4, SELF_INDEX, SIDE_BASE_ADDRESS_L1, SIDE_BASE_ADDRESS_L2,
    SIDE_BASE_ADDRESS_L3, SIDE_BASE_ADDRESS_L4, SIDE_INDEX};

#[test]
fn level4_base() {
    let base = !0u64 << 48;
    let base = base | SELF_INDEX << 39;
    let base = base | SELF_INDEX << 30;
    let base = base | SELF_INDEX << 21;
    let side = base | SIDE_INDEX << 12;
    let base = base | SELF_INDEX << 12;
    assert_eq!(side, SIDE_BASE_ADDRESS_L4);
    assert_eq!(base, BASE_ADDRESS_L4);
}

#[test]
fn level4_index() {
    assert_eq!(Level4::index(0x0000_0000_0000_0000), 0);
    assert_eq!(Level4::index(0x0000_0000_0001_0000), 0);
    assert_eq!(Level4::index(0x0000_0000_0020_0000), 0);
    assert_eq!(Level4::index(0x0000_0000_4000_0000), 0);
    assert_eq!(Level4::index(0x0000_0080_0000_0000), 1);
    assert_eq!(Level4::index(0x0000_7FFF_FFFF_FFFF), 255);
    assert_eq!(Level4::index(0xFFFF_8000_0000_0000), 256);
    assert_eq!(Level4::index(0xFFFF_8000_0000_1000), 256);
    assert_eq!(Level4::index(0xFFFF_8000_0020_0000), 256);
    assert_eq!(Level4::index(0xFFFF_8000_4000_0000), 256);
    assert_eq!(Level4::index(0xFFFF_8080_0000_0000), 257);
    assert_eq!(Level4::index(BASE_ADDRESS_L4), 511);
    assert_eq!(Level4::index(SIDE_BASE_ADDRESS_L4), 511);
}

#[test]
fn level3_base() {
    let base = !0u64 << 48;
    let base = base | SELF_INDEX << 39;
    let base = base | SELF_INDEX << 30;
    let side = base | SIDE_INDEX << 21;
    let base = base | SELF_INDEX << 21;
    assert_eq!(side, SIDE_BASE_ADDRESS_L3);
    assert_eq!(base, BASE_ADDRESS_L3);
}

#[test]
fn level3_index() {
    const INDEX_BITS: u64 = 18;
    const UPPER: u64 = 1 << INDEX_BITS;
    const HALFWAY: u64 = UPPER / 2;
    assert_eq!(Level3::index(0x0000_0000_0000_0000), 0);
    assert_eq!(Level3::index(0x0000_0000_0000_1000), 0);
    assert_eq!(Level3::index(0x0000_0000_0020_0000), 0);
    assert_eq!(Level3::index(0x0000_0000_4000_0000), 1);
    assert_eq!(Level3::index(0x0000_0080_0000_0000), 512);
    assert_eq!(Level3::index(0x0000_7FFF_FFFF_FFFF), HALFWAY - 1);
    assert_eq!(Level3::index(0xFFFF_8000_0000_0000), HALFWAY);
    assert_eq!(Level3::index(0xFFFF_8000_0000_1000), HALFWAY);
    assert_eq!(Level3::index(0xFFFF_8000_0020_0000), HALFWAY);
    assert_eq!(Level3::index(0xFFFF_8000_4000_0000), HALFWAY + 1);
    assert_eq!(Level3::index(0xFFFF_8080_0000_0000), HALFWAY + 512);
    assert_eq!(Level3::index(0xFFFF_FFFF_FFFF_F000), UPPER - 1);
    assert_eq!(Level3::index(0xFFFF_FFFF_FFFF_E000), UPPER - 1);
}

#[test]
fn level2_base() {
    let base = !0u64 << 48;
    let base = base | SELF_INDEX << 39;
    let side = base | SIDE_INDEX << 30;
    let base = base | SELF_INDEX << 30;
    assert_eq!(side, SIDE_BASE_ADDRESS_L2);
    assert_eq!(base, BASE_ADDRESS_L2);
}

#[test]
fn level2_index() {
    const INDEX_BITS: u64 = 27;
    const UPPER: u64 = 1 << INDEX_BITS;
    const HALFWAY: u64 = UPPER / 2;
    assert_eq!(Level2::index(0x0000_0000_0000_0000), 0);
    assert_eq!(Level2::index(0x0000_0000_0000_1000), 0);
    assert_eq!(Level2::index(0x0000_0000_0020_0000), 1);
    assert_eq!(Level2::index(0x0000_0000_4000_0000), 512);
    assert_eq!(Level2::index(0x0000_0080_0000_0000), 512 * 512);
    assert_eq!(Level2::index(0x0000_7FFF_FFFF_FFFF), HALFWAY - 1);
    assert_eq!(Level2::index(0xFFFF_8000_0000_0000), HALFWAY);
    assert_eq!(Level2::index(0xFFFF_8000_0000_1000), HALFWAY);
    assert_eq!(Level2::index(0xFFFF_8000_0020_0000), HALFWAY + 1);
    assert_eq!(Level2::index(0xFFFF_8000_4000_0000), HALFWAY + 512);
    assert_eq!(Level2::index(0xFFFF_8080_0000_0000), HALFWAY + 512 * 512);
    assert_eq!(Level2::index(0xFFFF_FFFF_FFFF_F000), UPPER - 1);
    assert_eq!(Level2::index(0xFFFF_FFFF_FFFF_E000), UPPER - 1);
}

#[test]
fn level1_base() {
    let base = !0u64 << 48;
    let side = base | SIDE_INDEX << 39;
    let base = base | SELF_INDEX << 39;
    assert_eq!(side, SIDE_BASE_ADDRESS_L1);
    assert_eq!(base, BASE_ADDRESS_L1);
}

#[test]
fn level1_index() {
    const INDEX_BITS: u64 = 36;
    const UPPER: u64 = 1 << INDEX_BITS;
    const HALFWAY: u64 = UPPER / 2;
    assert_eq!(Level1::index(0x0000_0000_0000_0000), 0);
    assert_eq!(Level1::index(0x0000_0000_0000_1000), 1);
    assert_eq!(Level1::index(0x0000_0000_0020_0000), 512);
    assert_eq!(Level1::index(0x0000_0000_4000_0000), 512 * 512);
    assert_eq!(Level1::index(0x0000_0080_0000_0000), 512 * 512 * 512);
    assert_eq!(Level1::index(0x0000_7FFF_FFFF_FFFF), HALFWAY - 1);
    assert_eq!(Level1::index(0xFFFF_8000_0000_0000), HALFWAY);
    assert_eq!(Level1::index(0xFFFF_8000_0000_1000), HALFWAY + 1);
    assert_eq!(Level1::index(0xFFFF_8000_0020_0000), HALFWAY + 512);
    assert_eq!(Level1::index(0xFFFF_8000_4000_0000), HALFWAY + 512 * 512);
    assert_eq!(Level1::index(0xFFFF_8080_0000_0000), HALFWAY + 512 * 512 * 512);
    assert_eq!(Level1::index(0xFFFF_FFFF_FFFF_F000), UPPER - 1);
    assert_eq!(Level1::index(0xFFFF_FFFF_FFFF_E000), UPPER - 2);
}
