use hypatia::loader::{binary_table, extract_image, install_image_pages, load_addr, load_image,
    page_payload, BinaryType, LoadError, Phdr};
use hypatia::vm::{AddressSpace, FrameSupply};
use hypatia::{HPA, PF4K};

/// A minimal 64-bit little-endian ELF image with one loadable header.
fn tiny_elf() -> Vec<u8> {
    let mut e = vec![0u8; 120];
    e[0..4].copy_from_slice(&[0x7F, b'E', b'L', b'F']);
    e[4] = 2; // 64-bit
    e[5] = 1; // little endian
    e[6] = 1; // version
    e[16..18].copy_from_slice(&2u16.to_le_bytes()); // ET_EXEC
    e[18..20].copy_from_slice(&62u16.to_le_bytes()); // x86_64
    e[20..24].copy_from_slice(&1u32.to_le_bytes()); // version
    e[24..32].copy_from_slice(&0x40_0000u64.to_le_bytes()); // entry
    e[32..40].copy_from_slice(&64u64.to_le_bytes()); // phoff
    e[52..54].copy_from_slice(&64u16.to_le_bytes()); // ehsize
    e[54..56].copy_from_slice(&56u16.to_le_bytes()); // phentsize
    e[56..58].copy_from_slice(&1u16.to_le_bytes()); // phnum
    // one PT_LOAD header at offset 64
    e[64..68].copy_from_slice(&1u32.to_le_bytes()); // p_type
    e[68..72].copy_from_slice(&5u32.to_le_bytes()); // p_flags r-x
    e[72..80].copy_from_slice(&0u64.to_le_bytes()); // p_offset
    e[80..88].copy_from_slice(&0x40_0000u64.to_le_bytes()); // p_vaddr
    e[88..96].copy_from_slice(&0x40_0000u64.to_le_bytes()); // p_paddr
    e[96..104].copy_from_slice(&120u64.to_le_bytes()); // p_filesz
    e[104..112].copy_from_slice(&0x2000u64.to_le_bytes()); // p_memsz
    e[112..120].copy_from_slice(&0x1000u64.to_le_bytes()); // p_align
    e
}

#[test]
fn binary_table_layout() {
    let t = binary_table();
    assert_eq!(t.len(), 10);
    assert_eq!(t[0].name, "devices");
    assert_eq!(t[0].addr.addr(), 64 * 1024 * 1024);
    assert!(matches!(t[0].kind, BinaryType::Segment));
    assert_eq!(t[9].name, "vm");
    assert_eq!(t[9].addr.addr(), (64 + 9 * 32) * 1024 * 1024);
    assert!(matches!(t[9].kind, BinaryType::Task));
    assert_eq!(load_addr(1).addr(), 96 * 1024 * 1024);
}

#[test]
fn archive_member_found() {
    // a Unix ar archive holding one member named "note"
    let mut a = Vec::new();
    a.extend_from_slice(b"!<arch>\n");
    a.extend_from_slice(b"note/           0           0     0     644     6         `\n");
    a.extend_from_slice(b"hello\n");
    let bytes = extract_image(&a, "note").expect("member exists");
    assert_eq!(bytes, b"hello\n");
    assert!(extract_image(&a, "absent").is_none());
}

#[test]
fn load_image_parses_and_builds_prototype() {
    let mut space = AddressSpace::new(PF4K::new(HPA::new(0x1000)));
    let mut supply = FrameSupply::new(0x400_0000, 0x500_0000);
    let elf = tiny_elf();
    let (root, pages) = load_image(&mut space, &elf, BinaryType::Segment, &mut supply)
        .expect("loaded the image");
    assert_eq!(root.pfa().addr(), 0x400_0000);
    // two pages cover the 0x2000-byte segment; each readable page of a
    // segment translates to its assigned frame
    assert_eq!(pages.len(), 2);
    assert_eq!(pages[0].va.addr(), 0x40_0000);
    assert_eq!(pages[1].va.addr(), 0x40_1000);
    assert!(pages[0].readable);
    assert_eq!(
        space.translate(0x40_0123).unwrap().addr(),
        pages[0].frame.addr() + 0x123,
    );
    assert_eq!(
        space.translate(0x40_1FFF).unwrap().addr(),
        pages[1].frame.addr() + 0xFFF,
    );
    // the first page carries the file bytes, zero-filled past them
    assert_eq!(pages[0].content.len(), 4096);
    assert_eq!(&pages[0].content[..120], &elf[..]);
    assert!(pages[0].content[120..].iter().all(|&b| b == 0));
    assert!(pages[1].content.iter().all(|&b| b == 0));
}

#[test]
fn load_image_task_clears_root_entries() {
    let mut space = AddressSpace::new(PF4K::new(HPA::new(0x1000)));
    let mut supply = FrameSupply::new(0x400_0000, 0x500_0000);
    let elf = tiny_elf();
    load_image(&mut space, &elf, BinaryType::Task, &mut supply).expect("loaded the image");
    // the prototype's own reach through the current root is gone
    assert!(space.translate(0x40_0000).is_none());
}

#[test]
fn install_pages_rejects_mapped_page() {
    let mut space = AddressSpace::new(PF4K::new(HPA::new(0x1000)));
    let mut supply = FrameSupply::new(0x400_0000, 0x500_0000);
    let phdrs = vec![Phdr {
        p_type: 1,
        p_flags: 5,
        p_offset: 0,
        p_vaddr: 0x40_0000,
        p_filesz: 8,
        p_memsz: 0x1000,
    }];
    let bytes = vec![7u8; 64];
    // map the page beforehand: installation must refuse to overwrite it
    let ranges = vec![hypatia::vm::VRange {
        start: hypatia::V4KA::new(0x40_0000),
        end: hypatia::V4KA::new(0x40_1000),
    }];
    space.make_ranges(&ranges, &mut supply).expect("made ranges");
    space
        .map_leaf(PF4K::new(HPA::new(0x700_0000)), hypatia::V4KA::new(0x40_0000), true, true, true)
        .expect("pre-mapped");
    let r = install_image_pages(&mut space, &phdrs, &bytes, &mut supply);
    assert_eq!(r.unwrap_err(), LoadError::AlreadyMapped);
}

#[test]
fn load_image_rejects_garbage() {
    let mut space = AddressSpace::new(PF4K::new(HPA::new(0x1000)));
    let mut supply = FrameSupply::new(0x400_0000, 0x500_0000);
    let junk = vec![0u8; 32];
    let r = load_image(&mut space, &junk, BinaryType::Segment, &mut supply);
    assert_eq!(r.unwrap_err(), LoadError::ParseFailure);
}

#[test]
fn page_payload_zero_fills() {
    let bytes = vec![9u8; 6000];
    let p = page_payload(&bytes, 1000, 4500, 4096);
    assert_eq!(p.len(), 4096);
    // the file range has 404 bytes left past the first page
    assert!(p[..404].iter().all(|&b| b == 9));
    assert!(p[404..].iter().all(|&b| b == 0));
}
