use hypatia::acpi::{checksum, madt_cpus, table_sound, Header, MadtCpu};
use hypatia::gdt::GDT;
use hypatia::idt::{make_gate, IDT};
use hypatia::memory::{fix_overlap, ram_covers, MemType, Region, RegionOrder};
use hypatia::V4KA;
use hypatia::segment::Descriptor;
use hypatia::tss::TSS;
use hypatia::uart::{encode_line_bytes, rx_ready, tx_ready, Port, Uart};
use hypatia::StackIndex;

#[test]
fn code64_descriptor_value() {
    assert_eq!(Descriptor::code64().0, 0x0020_9D00_0000_0000);
    assert_eq!(Descriptor::empty().0, 0);
}

#[test]
fn gdt_selectors() {
    assert_eq!(GDT::code_selector(), 8);
    assert_eq!(GDT::task_selector(), 48);
    let g = GDT::new(TSS::empty().descriptor(0x1234_5678));
    assert_eq!(g.hypertext.0, 0x0020_9D00_0000_0000);
}

#[test]
fn tss_descriptor_base_split() {
    let t = TSS::empty();
    let d = t.descriptor(0x1234_5678_9ABC_DEF0);
    assert_eq!(d.0 & 0xFFFF, 103);
    assert_eq!((d.0 >> 16) & 0xFFFF, 0xDEF0);
    assert_eq!((d.0 >> 32) & 0xFF, 0xBC);
    assert_eq!((d.0 >> 56) & 0xFF, 0x9A);
    assert_eq!((d.0 >> 64) & 0xFFFF_FFFF, 0x1234_5678);
}

#[test]
fn tss_set_stack() {
    let mut t = TSS::empty();
    t.set_stack(StackIndex::Ist3, 0xAAAA_BBBB_CCCC_DDDD);
    assert_eq!(t.ist_lower[2], 0xCCCC_DDDD);
    assert_eq!(t.ist_upper[2], 0xAAAA_BBBB);
    t.set_stack(StackIndex::Rsp0, 0x1111_2222_3333_4444);
    assert_eq!(t.rsp0_lower, 0x3333_4444);
    assert_eq!(t.rsp0_upper, 0x1111_2222);
}

#[test]
fn fault_vectors_use_distinct_stacks() {
    let g1 = make_gate(0xFFFF_8000_0010_0000, 1);
    let g2 = make_gate(0xFFFF_8000_0010_0000, 2);
    let g8 = make_gate(0xFFFF_8000_0010_0000, 8);
    let gn = make_gate(0xFFFF_8000_0010_0000, 33);
    let s1 = (g1.0 >> 32) & 7;
    let s2 = (g2.0 >> 32) & 7;
    let s8 = (g8.0 >> 32) & 7;
    assert_ne!(s1, s2);
    assert_ne!(s1, s8);
    assert_ne!(s2, s8);
    assert_eq!((gn.0 >> 32) & 7, 0);
}

#[test]
fn idt_builds() {
    let mut idt = IDT::empty();
    assert_eq!(idt.entries.len(), 256);
    let stubs: Vec<u64> = (0..256u64).map(|i| 0xFFFF_8000_0010_0000 + i * 8).collect();
    idt.init(&stubs);
    assert_eq!(idt.entries[0].0 & 0xFFFF, 0);
    assert_eq!(idt.entries[1].0 & 0xFFFF, 8);
    assert_eq!((idt.entries[2].0 >> 32) & 7, 1);
}

#[test]
fn region_order() {
    let a = Region { start: 0x2000, end: 0x3000, typ: MemType::RAM };
    let b = Region { start: 0x1000, end: 0x2000, typ: MemType::RAM };
    assert_eq!(Region::cmp(&a, &b), RegionOrder::Before);
    assert_eq!(Region::cmp(&b, &a), RegionOrder::After);
    assert_eq!(Region::cmp(&a, &a), RegionOrder::Same);
}

#[test]
fn ram_coverage() {
    let regions = vec![
        Region { start: 0, end: 0x9_F000, typ: MemType::RAM },
        Region { start: 0x10_0000, end: 0x4000_0000, typ: MemType::RAM },
        Region { start: 0x4000_0000, end: 0x4100_0000, typ: MemType::Reserved },
    ];
    assert!(ram_covers(&regions, 64 * 1024 * 1024, 384 * 1024 * 1024));
    assert!(!ram_covers(&regions, 0x3fff_0000, 0x4100_0000));
}

#[test]
fn uart_ports_and_status_bits() {
    let u = Uart::new(Port::Eia0);
    assert_eq!(u.data_port(), 0x3F8);
    assert_eq!(u.lsr_port(), 0x3FD);
    let u1 = Uart::new(Port::Eia1);
    assert_eq!(u1.data_port(), 0x2F8);
    assert!(tx_ready(0x20));
    assert!(!tx_ready(0x1F));
    assert!(rx_ready(0x01));
    assert!(!rx_ready(0xFE));
}

#[test]
fn crlf_encoding() {
    let out = encode_line_bytes(&b"a\nb".to_vec());
    assert_eq!(out, b"a\r\nb");
    let out = encode_line_bytes(&b"\n\n".to_vec());
    assert_eq!(out, b"\r\n\r\n");
}

#[test]
fn cycles_for_default_clock() {
    assert_eq!(hypatia::cpu::frequency(), 2_000_000_000);
    assert_eq!(hypatia::cpu::cycles_for_nanos(10_000_000), 20_000_000);
}

#[test]
fn acpi_checksum_and_header() {
    assert_eq!(checksum(0, &vec![1, 2, 3]), 6);
    assert_eq!(checksum(0, &vec![255, 1]), 0);
    let mut table = vec![0u8; 40];
    table[0..4].copy_from_slice(b"APIC");
    table[4..8].copy_from_slice(&40u32.to_le_bytes());
    table[8] = 3;
    let h = Header::parse(&table).expect("a header");
    assert_eq!(&h.signature, b"APIC");
    assert_eq!(h.len(), 40);
    assert_eq!(h.revision, 3);
    assert!(!table_sound(&vec![1, 2]));
    assert!(table_sound(&vec![254, 2]));
    // one enabled local APIC and one disabled, then an x2APIC record
    let mut data = vec![0u8; 8];
    data.extend_from_slice(&[0, 8, 0, 5, 1, 0, 0, 0]); // apic id 5, enabled
    data.extend_from_slice(&[0, 8, 0, 6, 0, 0, 0, 0]); // apic id 6, disabled
    data.extend_from_slice(&[9, 16, 0, 0, 7, 1, 0, 0, 1, 0, 0, 0, 0, 0, 0, 0]); // x2apic 0x107
    let cpus = madt_cpus(&data).expect("a valid entry list");
    assert_eq!(cpus, vec![MadtCpu { id: 5, extended: false }, MadtCpu { id: 0x107, extended: true }]);
}

#[test]
fn zero_page_is_zero() {
    let z = hypatia::zero_page();
    assert_eq!(z.len(), 4096);
    assert!(z.iter().all(|&b| b == 0));
}

#[test]
fn overlapping_regions_are_split() {
    // RAM with the loader image and a module carved out of it
    let regions = vec![
        Region { start: 0x10_0000, end: 0x4000_0000, typ: MemType::RAM },
        Region { start: 0x10_0000, end: 0x20_0000, typ: MemType::Loader },
        Region { start: 0x100_0000, end: 0x180_0000, typ: MemType::Module },
    ];
    let out = fix_overlap(&regions);
    assert_eq!(out.len(), 4);
    assert_eq!(out[0], Region { start: 0x10_0000, end: 0x20_0000, typ: MemType::Loader });
    assert_eq!(out[1], Region { start: 0x20_0000, end: 0x100_0000, typ: MemType::RAM });
    assert_eq!(out[2], Region { start: 0x100_0000, end: 0x180_0000, typ: MemType::Module });
    assert_eq!(out[3], Region { start: 0x180_0000, end: 0x4000_0000, typ: MemType::RAM });
    for w in out.windows(2) {
        assert!(w[0].end <= w[1].start);
    }
}

#[test]
fn gate_word_is_pinned() {
    let g = make_gate(0xFFFF_8000_0010_0008, 2);
    // handler offset fields, NMI stack, selector 8, present, ring 0
    assert_eq!(g.0 & 0xFFFF, 0x0008);
    assert_eq!((g.0 >> 48) & 0xFFFF, 0x0010);
    assert_eq!((g.0 >> 64) & 0xFFFF_FFFF, 0xFFFF_8000);
    assert_eq!((g.0 >> 32) & 7, 1);
    assert_eq!((g.0 >> 16) & 0xFFFF, 8);
    assert_eq!((g.0 >> 47) & 1, 1);
    assert_eq!((g.0 >> 45) & 3, 0);
}

#[test]
fn round_up_saturates() {
    assert_eq!(V4KA::new_round_up(u64::MAX).addr(), 0xFFFF_FFFF_FFFF_F000);
    assert_eq!(V4KA::new_round_up(0xFFFF_FFFF_FFFF_F001).addr(), 0xFFFF_FFFF_FFFF_F000);
}
