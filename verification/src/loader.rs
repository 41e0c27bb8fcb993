//! The binary loader.
//!
//! The cold-boot loader walks a fixed table of binary images, each
//! granted a 16 MiB physical region.  For every image it parses the
//! ELF program headers, builds a private address-space prototype whose
//! interior nodes come from a frame supply over the image's own region,
//! copies the loadable bytes page by page into fresh frames mapped into
//! the current space, and, for task images, clears the prototype root's
//! own entries so only the shared subtrees remain.

use vstd::prelude::*;
use crate::vm::in_span;
use crate::vm::pte_present;
use crate::vm::pte_huge;
use crate::vm::pte_write;


verus! {

/// Whether a binary is a segment (its entry runs during cold boot) or
/// a task (its pages are staged for later transfer).
#[derive(Clone, Copy, Debug, PartialEq, Eq, Structural)]
pub enum BinaryType {
    Segment,
    Task,
}

/// One row of the binary table.
#[derive(Clone, Copy, Debug)]
pub struct BinaryMeta {
    /// The image's name in the boot archive.
    pub name: &'static str,
    /// The base of the image's 16 MiB physical region.
    pub addr: crate::HPA,
    /// Segment or task.
    pub kind: BinaryType,
}

/// Size of the physical region each binary image owns.
pub const BINARY_IMAGE_MEMORY_SIZE: u64 = 0x100_0000;

/// Binaries load in 16 MiB regions aligned on 32 MiB boundaries
/// starting at 64 MiB; the upper half of each 32 MiB slot is kept for
/// hitless update staging.
pub fn load_addr(offset: u64) -> (r: crate::HPA)
    requires
        offset <= 100,
    ensures
        r.addr_spec() == (64 + offset * 32) * 0x10_0000,
{
    crate::HPA::new((64 + offset * 32) * 0x10_0000)
}

/// How many binaries the table holds.
pub const BINARY_COUNT: u64 = 10;

/// The table of all binaries the loader places, their load addresses
/// and their kinds.
pub fn binary_table() -> (r: Vec<BinaryMeta>)
    ensures
        r@.len() == 10,
        forall|i: int|
            0 <= i < 10 ==> (#[trigger] r@[i]).addr.addr_spec() == (64 + i * 32) * 0x10_0000,
        forall|i: int| 0 <= i < 7 ==> (#[trigger] r@[i]).kind == BinaryType::Segment,
        forall|i: int| 7 <= i < 10 ==> (#[trigger] r@[i]).kind == BinaryType::Task,
        r@[0].name@ == "devices"@,
        r@[1].name@ == "global"@,
        r@[2].name@ == "memory"@,
        r@[3].name@ == "monitor"@,
        r@[4].name@ == "scheduler"@,
        r@[5].name@ == "supervisor"@,
        r@[6].name@ == "trace"@,
        r@[7].name@ == "system"@,
        r@[8].name@ == "vcpu"@,
        r@[9].name@ == "vm"@,
{
    let mut r: Vec<BinaryMeta> = Vec::new();
    r.push(BinaryMeta { name: "devices", addr: load_addr(0), kind: BinaryType::Segment });
    r.push(BinaryMeta { name: "global", addr: load_addr(1), kind: BinaryType::Segment });
    r.push(BinaryMeta { name: "memory", addr: load_addr(2), kind: BinaryType::Segment });
    r.push(BinaryMeta { name: "monitor", addr: load_addr(3), kind: BinaryType::Segment });
    r.push(BinaryMeta { name: "scheduler", addr: load_addr(4), kind: BinaryType::Segment });
    r.push(BinaryMeta { name: "supervisor", addr: load_addr(5), kind: BinaryType::Segment });
    r.push(BinaryMeta { name: "trace", addr: load_addr(6), kind: BinaryType::Segment });
    r.push(BinaryMeta { name: "system", addr: load_addr(7), kind: BinaryType::Task });
    r.push(BinaryMeta { name: "vcpu", addr: load_addr(8), kind: BinaryType::Task });
    r.push(BinaryMeta { name: "vm", addr: load_addr(9), kind: BinaryType::Task });
    r
}

/// A program header, reduced to the plain fields the loader reads.
#[derive(Clone, Copy, Debug, PartialEq, Eq, Structural)]
pub struct Phdr {
    /// Segment type; loadable segments have type one.
    pub p_type: u32,
    /// Permission flags: execute is bit zero, write bit one, read bit
    /// two.
    pub p_flags: u32,
    /// Offset of the segment's bytes in the file.
    pub p_offset: u64,
    /// Virtual address the segment loads at.
    pub p_vaddr: u64,
    /// Number of bytes of the segment present in the file.
    pub p_filesz: u64,
    /// Size of the segment in memory.
    pub p_memsz: u64,
}

/// A parsed ELF image: the entry point and its program headers.
#[derive(Debug)]
pub struct ParsedElf {
    /// The image's entry point.
    pub entry: u64,
    /// The program headers, in file order.
    pub phdrs: Vec<Phdr>,
}

/// What parsing yields on a byte image, a function of the bytes alone.
pub uninterp spec fn elf_parse_of(bytes: Seq<u8>) -> Option<ParsedElf>;

/// Relies on goblin's `elf::Elf::parse`: parses the ELF header and
/// program-header table of `bytes`; the result depends on the bytes
/// alone.
#[verifier::external_body]
fn parse_elf(bytes: &Vec<u8>) -> (r: Option<ParsedElf>)
    ensures
        r == elf_parse_of(bytes@),
{
    match goblin::elf::Elf::parse(bytes) {
        Ok(e) => Some(ParsedElf {
            entry: e.entry,
            phdrs: e.program_headers.iter().map(|h| Phdr {
                p_type: h.p_type,
                p_flags: h.p_flags,
                p_offset: h.p_offset,
                p_vaddr: h.p_vaddr,
                p_filesz: h.p_filesz,
                p_memsz: h.p_memsz,
            }).collect(),
        }),
        Err(_) => None,
    }
}

/// What extracting a member yields on an archive image, a function of
/// the archive bytes and the member name alone.
pub uninterp spec fn member_of(data: Seq<u8>, name: Seq<char>) -> Option<Seq<u8>>;

/// Relies on goblin's `archive::Archive::parse` and
/// `archive::Archive::extract`: finds the named member of a Unix `ar`
/// archive and hands back a copy of its bytes; the result depends on
/// the archive bytes and the name alone.
#[verifier::external_body]
fn archive_member(data: &Vec<u8>, name: &str) -> (r: Option<Vec<u8>>)
    ensures
        match r {
            Some(v) => member_of(data@, name@) == Some(v@),
            None => member_of(data@, name@) is None,
        },
{
    let archive = match goblin::archive::Archive::parse(data) {
        Ok(a) => a,
        Err(_) => return None,
    };
    match archive.extract(name, data) {
        Ok(bytes) => Some(bytes.to_vec()),
        Err(_) => None,
    }
}

/// Extracts the named image from the boot archive.
pub fn extract_image(data: &Vec<u8>, name: &str) -> (r: Option<Vec<u8>>)
    ensures
        match r {
            Some(v) => member_of(data@, name@) == Some(v@),
            None => member_of(data@, name@) is None,
        },
{
    archive_member(data, name)
}

/// A header is loadable when its type is PT_LOAD.
pub open spec fn loadable(h: Phdr) -> bool {
    h.p_type == 1
}

/// Every loadable header starts on a page boundary, is non-empty, and
/// stays inside the canonical low half of the address space.
pub open spec fn headers_ok(phdrs: Seq<Phdr>) -> bool {
    forall|i: int|
        0 <= i < phdrs.len() && loadable(#[trigger] phdrs[i]) ==> {
            &&& phdrs[i].p_vaddr % 4096 == 0
            &&& phdrs[i].p_memsz > 0
            &&& phdrs[i].p_vaddr + phdrs[i].p_memsz < 0x8000_0000_0000u64
        }
}

/// Every loadable header's file-backed bytes lie inside the image.
pub open spec fn file_ranges_ok(phdrs: Seq<Phdr>, blen: int) -> bool {
    forall|i: int|
        0 <= i < phdrs.len() && loadable(#[trigger] phdrs[i]) ==> phdrs[i].p_offset
            + phdrs[i].p_filesz <= blen
}

/// Where the page-rounded range of a loadable header ends.
pub open spec fn range_end_of(h: Phdr) -> int {
    ((h.p_vaddr + h.p_memsz + 4095) / 4096) * 4096
}

/// The loadable headers, in file order.
pub open spec fn loadables_of(phdrs: Seq<Phdr>) -> Seq<Phdr>
    decreases phdrs.len(),
{
    if phdrs.len() == 0 {
        Seq::empty()
    } else {
        loadables_of(phdrs.drop_last()) + (if loadable(phdrs.last()) {
            seq![phdrs.last()]
        } else {
            Seq::empty()
        })
    }
}

/// Collects the page-rounded ranges of the loadable program headers,
/// one per loadable header, in file order.  Fails when a loadable
/// header is misaligned, empty, or out of the low half.
pub fn loadable_ranges(phdrs: &Vec<Phdr>) -> (r: Result<Vec<crate::vm::VRange>, crate::vm::MapError>)
    ensures
        r is Ok <==> headers_ok(phdrs@),
        r is Ok ==> {
            let out = r.unwrap()@;
            let ls = loadables_of(phdrs@);
            &&& out.len() == ls.len()
            &&& forall|j: int|
                0 <= j < out.len() ==> (#[trigger] out[j]).start.addr_spec() == ls[j].p_vaddr
                    && out[j].end.addr_spec() == range_end_of(ls[j]) && out[j].end.addr_spec()
                    <= 0x8000_0000_0000u64
        },
        !(r is Ok) ==> r == Err::<Vec<crate::vm::VRange>, crate::vm::MapError>(
            crate::vm::MapError::ForbiddenRegion,
        ),
{
    let mut out: Vec<crate::vm::VRange> = Vec::new();
    let mut i: usize = 0;
    while i < phdrs.len()
        invariant
            i <= phdrs@.len(),
            out@.len() == loadables_of(phdrs@.take(i as int)).len(),
            forall|j: int|
                0 <= j < out@.len() ==> (#[trigger] out@[j]).start.addr_spec()
                    == loadables_of(phdrs@.take(i as int))[j].p_vaddr && out@[j].end.addr_spec()
                    == range_end_of(loadables_of(phdrs@.take(i as int))[j])
                    && out@[j].end.addr_spec() <= 0x8000_0000_0000u64,
            forall|j: int|
                0 <= j < i && loadable(#[trigger] phdrs@[j]) ==> {
                    &&& phdrs@[j].p_vaddr % 4096 == 0
                    &&& phdrs@[j].p_memsz > 0
                    &&& phdrs@[j].p_vaddr + phdrs@[j].p_memsz < 0x8000_0000_0000u64
                },
        decreases phdrs@.len() - i,
    {
        let h = phdrs[i];
        proof {
            assert(phdrs@.take(i + 1).drop_last() =~= phdrs@.take(i as int));
            assert(phdrs@.take(i + 1).last() == phdrs@[i as int]);
        }
        if h.p_type == 1 {
            if h.p_vaddr % 4096 != 0 || h.p_memsz == 0 || h.p_memsz >= 0x8000_0000_0000u64
                || h.p_vaddr >= 0x8000_0000_0000u64 - h.p_memsz {
                return Err(crate::vm::MapError::ForbiddenRegion);
            }
            let start = crate::V4KA::new(h.p_vaddr);
            let end = crate::V4KA::new_round_up(h.p_vaddr + h.p_memsz);
            let ea = end.addr();
            proof {
                if end.addr_spec() > 0x8000_0000_0000u64 {
                    let d = end.addr_spec() - 0x8000_0000_0000u64;
                    vstd::arithmetic::div_mod::lemma_mod_multiples_vanish(
                        0x8000_0000_0000int / 4096,
                        d as int,
                        4096,
                    );
                    vstd::arithmetic::div_mod::lemma_small_mod(d as nat, 4096nat);
                    assert(end.addr_spec() % 4096 == d % 4096);
                    assert(false);
                }
            }
            out.push(crate::vm::VRange { start, end });
        }
        i = i + 1;
    }
    proof {
        assert(phdrs@.take(phdrs@.len() as int) =~= phdrs@);
    }
    Ok(out)
}

/// Addresses below the canonical low half, widened to whole 512 GiB
/// blocks, stay outside the map windows.
proof fn lemma_low_span_mappable(w: u64, end: u64)
    requires
        w - w % 0x80_0000_0000u64 < end,
        end <= 0x8000_0000_0000u64,
    ensures
        crate::vm::AddressSpace::mappable(w),
{
    let x = w;
    assert(x - x % 0x80_0000_0000u64 < 0x8000_0000_0000u64 ==> (x < 0xFFFF_FF00_0000_0000u64
        && ((x & 0x0000_FFFF_FFFF_FFFFu64) >> 39) & 0x1FF != 510 && ((x
        & 0x0000_FFFF_FFFF_FFFFu64) >> 39) & 0x1FF != 511)) by (bit_vector);
}

/// Failures of the binary loader.
#[derive(Clone, Copy, Debug, PartialEq, Eq, Structural)]
pub enum LoadError {
    /// The image is not a well-formed ELF binary, or a loadable header
    /// is misaligned or out of range.
    ParseFailure,
    /// The image's region could not supply enough fresh frames.
    AllocatorFailed,
    /// A page of the image was already mapped.
    AlreadyMapped,
    /// A loadable range reaches into a map window.
    ForbiddenRegion,
}

/// The loader's rendering of a page-map failure.
pub fn load_error_of(e: crate::vm::MapError) -> (r: LoadError)
    ensures
        e == crate::vm::MapError::AllocatorFailed ==> r == LoadError::AllocatorFailed,
        e == crate::vm::MapError::AlreadyMapped ==> r == LoadError::AlreadyMapped,
        e == crate::vm::MapError::ForbiddenRegion ==> r == LoadError::ForbiddenRegion,
{
    match e {
        crate::vm::MapError::AllocatorFailed => LoadError::AllocatorFailed,
        crate::vm::MapError::AlreadyMapped => LoadError::AlreadyMapped,
        crate::vm::MapError::ForbiddenRegion => LoadError::ForbiddenRegion,
    }
}

/// The program headers of a parse, when it succeeds.
pub open spec fn parsed_headers(bytes: Seq<u8>) -> Seq<Phdr> {
    elf_parse_of(bytes).unwrap().phdrs@
}

/// Loads one binary image.
///
/// Parses the image's program headers, allocates a prototype root from
/// `supply` (the image's own region), creates the interior structures
/// of the loadable ranges in both the current space and the prototype,
/// maps every page of every loadable range to a fresh frame with the
/// header's permissions, and, for a task, clears the prototype-sharing
/// entries out of the current root again.  The page contents to place
/// in physical memory are handed back with the prototype root.  Any
/// failure is fatal to the boot and handed back unchanged; a parse
/// failure is reported exactly when the bytes are not a well-formed
/// image with sound loadable headers.
pub fn load_image(
    space: &mut crate::vm::AddressSpace,
    bytes: &Vec<u8>,
    kind: BinaryType,
    supply: &mut crate::vm::FrameSupply,
) -> (r: Result<(crate::PF4K, Vec<PageAssignment>), LoadError>)
    requires
        old(space).wf(),
        old(supply).wf(),
        old(space).supply_fresh(*old(supply)),
        forall|w: u64|
            w - w % 0x80_0000_0000u64 < 0x8000_0000_0000u64 ==> !old(space).big_blocked(w) && (
            #[trigger] old(space).entry4(w) == 0 || pte_present(old(space).entry4(w))),
    ensures
        final(space).wf(),
        final(supply).wf(),
        final(space).root_spec() == old(space).root_spec(),
        final(space).supply_fresh(*final(supply)),
        final(supply).end_spec() == old(supply).end_spec(),
        r == Err::<(crate::PF4K, Vec<PageAssignment>), LoadError>(LoadError::ParseFailure) <==> (
        elf_parse_of(bytes@) is None || !headers_ok(parsed_headers(bytes@)) || !file_ranges_ok(
            parsed_headers(bytes@),
            bytes@.len() as int,
        )),
        r is Ok ==> {
            let root = r.unwrap().0;
            let pages = r.unwrap().1@;
            &&& elf_parse_of(bytes@) is Some
            &&& headers_ok(parsed_headers(bytes@))
            &&& file_ranges_ok(parsed_headers(bytes@), bytes@.len() as int)
            &&& final(space).sets().roots.contains(root.pfa_spec().addr_spec())
            &&& final(space).side_slot() == 0
            &&& (forall|j: int|
                0 <= j < pages.len() ==> {
                    let a = #[trigger] pages[j];
                    &&& a.content@.len() == 4096
                    &&& (forall|k: int|
                        0 <= k < 4096 ==> a.content@[k] == (if a.page_off + k < a.src_len {
                            bytes@[a.src_off + a.page_off + k]
                        } else {
                            0
                        }))
                    &&& crate::vm::frame_addr_ok(a.frame.addr_spec())
                })
            &&& (kind == BinaryType::Segment ==> forall|j: int|
                0 <= j < pages.len() && (#[trigger] pages[j]).readable ==> forall|off: u64|
                    off < 4096 ==> #[trigger] final(space).translate_spec(
                        (pages[j].va.addr_spec() + off) as u64,
                    ) == Some((pages[j].frame.addr_spec() + off) as u64))
            &&& (forall|w: u64|
                w - w % 0x80_0000_0000u64 < 0x8000_0000_0000u64 ==> !final(space).big_blocked(w)
                    && (#[trigger] final(space).entry4(w) == 0 || pte_present(
                    final(space).entry4(w),
                )))
        },
{
    let parsed = match parse_elf(bytes) {
        Some(p) => p,
        None => {
            return Err(LoadError::ParseFailure);
        },
    };
    let ranges = match loadable_ranges(&parsed.phdrs) {
        Ok(rs) => rs,
        Err(_) => {
            return Err(LoadError::ParseFailure);
        },
    };
    let blen = bytes.len() as u64;
    let mut p: usize = 0;
    while p < parsed.phdrs.len()
        invariant
            *space == *old(space),
            *supply == *old(supply),
            old(space).wf(),
            old(supply).wf(),
            old(space).supply_fresh(*old(supply)),
            blen == bytes@.len(),
            p <= parsed.phdrs@.len(),
            elf_parse_of(bytes@) is Some,
            parsed.phdrs@ == parsed_headers(bytes@),
            headers_ok(parsed_headers(bytes@)),
            forall|i: int|
                0 <= i < p && loadable(#[trigger] parsed.phdrs@[i]) ==> parsed.phdrs@[i].p_offset
                    + parsed.phdrs@[i].p_filesz <= bytes@.len(),
        decreases parsed.phdrs@.len() - p,
    {
        let h = parsed.phdrs[p];
        if h.p_type == 1 {
            if h.p_offset > blen || h.p_filesz > blen - h.p_offset {
                return Err(LoadError::ParseFailure);
            }
        }
        p = p + 1;
    }
    proof {
        assert forall|k2: int, w: u64|
            0 <= k2 < ranges@.len() && in_span(
                w,
                ranges@[k2].start.addr_spec(),
                ranges@[k2].end.addr_spec(),
                0x80_0000_0000u64,
            ) implies crate::vm::AddressSpace::mappable(w) && !old(space).big_blocked(w) && (old(
            space,
        ).entry4(w) == 0 || pte_present(old(space).entry4(w))) by {
            vstd::arithmetic::div_mod::lemma_mod_bound(w as int, 0x80_0000_0000);
            lemma_low_span_mappable(w, ranges@[k2].end.addr_spec());
        }
        assert forall|k2: int|
            0 <= k2 < ranges@.len() implies (#[trigger] ranges@[k2]).end.addr_spec()
            <= crate::vm::SIDE_BASE_ADDRESS_L1 by {
        }
    }
    let root = match space.new_foreign_root(supply) {
        Ok(pf) => pf,
        Err(e) => {
            return Err(load_error_of(e));
        },
    };
    let ghost s1 = *space;
    proof {
        let nf = root.pfa_spec().addr_spec();
        assert forall|w: u64|
            w - w % 0x80_0000_0000u64 < 0x8000_0000_0000u64 implies !(
        #[trigger] s1.big_blocked(w)) && (s1.entry4(w) == 0 || pte_present(s1.entry4(w))) by {
            lemma_low_span_mappable(w, 0x8000_0000_0000u64);
            crate::vm::lemma_index_bounds(w);
            assert(nf != old(space).root_spec());
            assert(s1.entry4(w) == old(space).entry4(w));
            if pte_present(old(space).entry4(w)) {
                old(space).lemma_mappable_path(w);
                assert(s1.entry3(w) == old(space).entry3(w));
                if pte_present(old(space).entry3(w)) && !pte_huge(old(space).entry3(w)) {
                    assert(s1.entry2(w) == old(space).entry2(w));
                }
            }
        }
        assert forall|k2: int, w: u64|
            0 <= k2 < ranges@.len() && in_span(
                w,
                ranges@[k2].start.addr_spec(),
                ranges@[k2].end.addr_spec(),
                0x80_0000_0000u64,
            ) implies crate::vm::AddressSpace::mappable(w) && !s1.big_blocked(w) && (s1.entry4(w)
            == 0 || pte_present(s1.entry4(w))) by {
            vstd::arithmetic::div_mod::lemma_mod_bound(w as int, 0x80_0000_0000);
            lemma_low_span_mappable(w, ranges@[k2].end.addr_spec());
            assert(w - w % 0x80_0000_0000u64 < 0x8000_0000_0000u64);
            assert(!s1.big_blocked(w));
        }
    }
    let root = match space.make_shared_ranges(&ranges, root, supply) {
        Ok(pf) => pf,
        Err(e) => {
            return Err(load_error_of(e));
        },
    };
    let ghost s2 = *space;
    let pages = match install_image_pages(space, &parsed.phdrs, bytes, supply) {
        Ok(ps) => ps,
        Err(e) => {
            return Err(e);
        },
    };
    let ghost s3 = *space;
    if matches!(kind, BinaryType::Task) {
        space.unmap_root_ranges(&ranges);
    }
    proof {
        assert forall|w: u64|
            w - w % 0x80_0000_0000u64 < 0x8000_0000_0000u64 implies !space.big_blocked(w) && (
        #[trigger] space.entry4(w) == 0 || pte_present(space.entry4(w))) by {
            lemma_low_span_mappable(w, 0x8000_0000_0000u64);
            assert(!old(space).big_blocked(w) && (old(space).entry4(w) == 0 || pte_present(
                old(space).entry4(w),
            )));
            assert(s1.entry4(w) == old(space).entry4(w));
            assert(!s1.big_blocked(w));
            assert(!s2.big_blocked(w) && (s2.entry4(w) == s1.entry4(w) || (pte_present(
                s2.entry4(w),
            ) && pte_write(s2.entry4(w)) && !pte_huge(s2.entry4(w)))));
            assert(s3.entry4(w) == s2.entry4(w));
            assert(!s3.big_blocked(w));
        }
    }
    Ok((root, pages))
}

/// One page of an image, staged for physical memory: where it maps,
/// which frame backs it, the bytes to place in that frame, and the
/// span of the file it came from.
#[derive(Debug)]
pub struct PageAssignment {
    /// The page's virtual address.
    pub va: crate::V4KA,
    /// The frame backing the page.
    pub frame: crate::HPA,
    /// The 4096 bytes to copy into the frame.
    pub content: Vec<u8>,
    /// Whether the page was mapped readable.
    pub readable: bool,
    /// Offset of the segment's bytes in the file.
    pub src_off: u64,
    /// Number of file-backed bytes of the segment.
    pub src_len: u64,
    /// Offset of this page past the segment's start.
    pub page_off: u64,
}

/// Addresses below the canonical low half stay outside the map
/// windows.
proof fn lemma_low_addr_mappable(w: u64)
    requires
        w < 0x8000_0000_0000u64,
    ensures
        crate::vm::AddressSpace::mappable(w),
{
    vstd::arithmetic::div_mod::lemma_mod_bound(w as int, 0x80_0000_0000);
    lemma_low_span_mappable(w, 0x8000_0000_0000u64);
}

/// Maps every page of every loadable segment: for each 4 KiB page of
/// each header's rounded range, a fresh frame from `supply` is mapped
/// at the page with the header's R/W/X permissions, and the bytes to
/// copy into the frame (file-backed, with a zero-filled tail) are
/// handed back for the embedding program to place.
///
/// Afterwards every readable page translates to its assigned frame.
/// A present mapping or a dry supply fails the call, fatally for the
/// boot.
pub fn install_image_pages(
    space: &mut crate::vm::AddressSpace,
    phdrs: &Vec<Phdr>,
    bytes: &Vec<u8>,
    supply: &mut crate::vm::FrameSupply,
) -> (r: Result<Vec<PageAssignment>, LoadError>)
    requires
        old(space).wf(),
        old(supply).wf(),
        old(space).supply_fresh(*old(supply)),
        headers_ok(phdrs@),
        file_ranges_ok(phdrs@, bytes@.len() as int),
    ensures
        final(space).wf(),
        final(supply).wf(),
        final(space).root_spec() == old(space).root_spec(),
        final(space).sets() == old(space).sets(),
        final(space).supply_fresh(*final(supply)),
        final(supply).end_spec() == old(supply).end_spec(),
        old(supply).next_spec() <= final(supply).next_spec(),
        final(space).side_slot() == old(space).side_slot(),
        r is Err ==> (r.unwrap_err() == LoadError::AllocatorFailed || r.unwrap_err()
            == LoadError::AlreadyMapped),
        forall|w: u64|
            crate::vm::AddressSpace::mappable(w) ==> #[trigger] final(space).entry4(w) == old(space).entry4(w),
        forall|w: u64|
            crate::vm::AddressSpace::mappable(w) ==> ((#[trigger] final(space).big_blocked(w)) ==> old(
                space,
            ).big_blocked(w)),
        r is Ok ==> {
            let out = r.unwrap()@;
            forall|j: int|
                0 <= j < out.len() ==> {
                    let a = #[trigger] out[j];
                    &&& a.content@.len() == 4096
                    &&& (forall|k: int|
                        0 <= k < 4096 ==> a.content@[k] == (if a.page_off + k < a.src_len {
                            bytes@[a.src_off + a.page_off + k]
                        } else {
                            0
                        }))
                    &&& a.src_off + a.src_len <= bytes@.len()
                    &&& crate::vm::frame_addr_ok(a.frame.addr_spec())
                    &&& old(supply).next_spec() <= a.frame.addr_spec()
                    &&& a.frame.addr_spec() < final(supply).next_spec()
                    &&& (a.readable ==> forall|off: u64|
                        off < 4096 ==> #[trigger] final(space).translate_spec(
                            (a.va.addr_spec() + off) as u64,
                        ) == Some((a.frame.addr_spec() + off) as u64))
                }
        },
{
    let mut out: Vec<PageAssignment> = Vec::new();
    let ghost s0 = *old(space);
    let ghost sup0 = *old(supply);
    let mut p: usize = 0;
    while p < phdrs.len()
        invariant
            s0 == *old(space),
            sup0 == *old(supply),
            p <= phdrs@.len(),
            headers_ok(phdrs@),
            file_ranges_ok(phdrs@, bytes@.len() as int),
            space.wf(),
            supply.wf(),
            space.supply_fresh(*supply),
            supply.end_spec() == sup0.end_spec(),
            sup0.next_spec() <= supply.next_spec(),
            space.root_spec() == s0.root_spec(),
            space.sets() == s0.sets(),
            space.side_slot() == s0.side_slot(),
            forall|w: u64|
                crate::vm::AddressSpace::mappable(w) ==> #[trigger] space.entry4(w) == s0.entry4(w),
            forall|w: u64|
                crate::vm::AddressSpace::mappable(w) ==> ((#[trigger] space.big_blocked(w)) ==> s0.big_blocked(w)),
            forall|j: int|
                0 <= j < out@.len() ==> {
                    let a = #[trigger] out@[j];
                    &&& a.content@.len() == 4096
                    &&& (forall|k: int|
                        0 <= k < 4096 ==> a.content@[k] == (if a.page_off + k < a.src_len {
                            bytes@[a.src_off + a.page_off + k]
                        } else {
                            0
                        }))
                    &&& a.src_off + a.src_len <= bytes@.len()
                    &&& crate::vm::frame_addr_ok(a.frame.addr_spec())
                    &&& sup0.next_spec() <= a.frame.addr_spec() < supply.next_spec()
                    &&& a.va.addr_spec() % 4096 == 0
                    &&& a.va.addr_spec() < 0x8000_0000_0000u64
                    &&& (a.readable ==> forall|off: u64|
                        off < 4096 ==> #[trigger] space.translate_spec(
                            (a.va.addr_spec() + off) as u64,
                        ) == Some((a.frame.addr_spec() + off) as u64))
                },
        decreases phdrs@.len() - p,
    {
        let h = phdrs[p];
        if h.p_type == 1 {
            proof {
                assert(loadable(phdrs@[p as int]));
                assert(h.p_offset + h.p_filesz <= bytes@.len());
            }
            let readable = h.p_flags & 4 != 0;
            let writable = h.p_flags & 2 != 0;
            let executable = h.p_flags & 1 != 0;
            let end = crate::V4KA::new_round_up(h.p_vaddr + h.p_memsz);
            let end_addr = end.addr();
            let mut va: u64 = h.p_vaddr;
            while va < end_addr
                invariant
                    s0 == *old(space),
                    sup0 == *old(supply),
                    headers_ok(phdrs@),
                    file_ranges_ok(phdrs@, bytes@.len() as int),
                    space.wf(),
                    supply.wf(),
                    space.supply_fresh(*supply),
                    supply.end_spec() == sup0.end_spec(),
                    sup0.next_spec() <= supply.next_spec(),
                    space.root_spec() == s0.root_spec(),
                    space.sets() == s0.sets(),
                    space.side_slot() == s0.side_slot(),
                    h.p_offset + h.p_filesz <= bytes@.len(),
                    va % 4096 == 0,
                    h.p_vaddr <= va,
                    end_addr <= 0x8000_0000_0000u64,
                    end_addr % 4096 == 0,
                    forall|w: u64|
                        crate::vm::AddressSpace::mappable(w) ==> #[trigger] space.entry4(w) == s0.entry4(w),
                    forall|w: u64|
                        crate::vm::AddressSpace::mappable(w) ==> ((#[trigger] space.big_blocked(w))
                            ==> s0.big_blocked(w)),
                    forall|j: int|
                        0 <= j < out@.len() ==> {
                            let a = #[trigger] out@[j];
                            &&& a.content@.len() == 4096
                            &&& (forall|k: int|
                                0 <= k < 4096 ==> a.content@[k] == (if a.page_off + k
                                    < a.src_len {
                                    bytes@[a.src_off + a.page_off + k]
                                } else {
                                    0
                                }))
                            &&& a.src_off + a.src_len <= bytes@.len()
                            &&& crate::vm::frame_addr_ok(a.frame.addr_spec())
                            &&& sup0.next_spec() <= a.frame.addr_spec() < supply.next_spec()
                            &&& a.va.addr_spec() % 4096 == 0
                            &&& a.va.addr_spec() < 0x8000_0000_0000u64
                            &&& (a.readable ==> forall|off: u64|
                                off < 4096 ==> #[trigger] space.translate_spec(
                                    (a.va.addr_spec() + off) as u64,
                                ) == Some((a.frame.addr_spec() + off) as u64))
                        },
                decreases end_addr - va,
            {
                let pf = match supply.take() {
                    Some(pf) => pf,
                    None => {
                        return Err(LoadError::AllocatorFailed);
                    },
                };
                let content = page_payload(bytes, h.p_offset, h.p_filesz, va - h.p_vaddr);
                let ghost sp = *space;
                let ghost supp = *supply;
                proof {
                    lemma_low_addr_mappable(va);
                    crate::vm::lemma_index_bounds(va);
                }
                let page = crate::V4KA::new(va);
                match space.map_leaf(pf, page, readable, writable, executable) {
                    Ok(()) => {},
                    Err(e) => {
                        return Err(load_error_of(e));
                    },
                }
                proof {
                    assert forall|a2: u64|
                        supply.next_spec() <= a2 < supply.end_spec() implies !(
                    #[trigger] space.has_table(a2)) by {
                        assert(!sp.has_table(a2));
                    }
                    assert forall|w: u64|
                        crate::vm::AddressSpace::mappable(w) implies #[trigger] space.entry4(w) == s0.entry4(w) by {
                        crate::vm::lemma_index_bounds(w);
                        assert(space.entry4(w) == sp.entry4(w));
                    }
                    assert forall|w: u64|
                        crate::vm::AddressSpace::mappable(w) && #[trigger] space.big_blocked(w) implies s0.big_blocked(
                        w,
                    ) by {
                        crate::vm::lemma_index_bounds(w);
                        assert(space.entry4(w) == sp.entry4(w));
                        if pte_present(sp.entry4(w)) {
                            sp.lemma_mappable_path(w);
                            assert(space.entry3(w) == sp.entry3(w));
                            if pte_present(sp.entry3(w)) && !pte_huge(sp.entry3(w)) {
                                assert(space.entry2(w) == sp.entry2(w));
                            }
                        }
                        assert(sp.big_blocked(w));
                    }
                    assert forall|j: int|
                        0 <= j < out@.len() && out@[j].readable implies (forall|off: u64|
                        off < 4096 ==> #[trigger] space.translate_spec(
                            ((#[trigger] out@[j]).va.addr_spec() + off) as u64,
                        ) == Some((out@[j].frame.addr_spec() + off) as u64)) by {
                        let a = out@[j];
                        assert forall|off: u64| off < 4096 implies #[trigger] space.translate_spec(
                            (a.va.addr_spec() + off) as u64,
                        ) == Some((a.frame.addr_spec() + off) as u64) by {
                            let w = (a.va.addr_spec() + off) as u64;
                            lemma_low_addr_mappable(w);
                            crate::vm::lemma_index_bounds(w);
                            crate::vm::lemma_index_bounds(va);
                            assert(sp.translate_spec(w) == Some(
                                (a.frame.addr_spec() + off) as u64,
                            ));
                            sp.lemma_mappable_path(w);
                            sp.lemma_mappable_path(va);
                            assert(pte_present(sp.entry4(w)));
                            assert(space.entry4(w) == sp.entry4(w));
                            assert(space.entry3(w) == sp.entry3(w));
                            if !pte_huge(sp.entry3(w)) {
                                assert(space.entry2(w) == sp.entry2(w));
                                if !pte_huge(sp.entry2(w)) {
                                    if sp.l1_frame(w) == sp.l1_frame(va) && crate::vm::l1_index(w)
                                        == crate::vm::l1_index(va) {
                                        assert(sp.entry1(w) == sp.entry1(va));
                                        assert(sp.missing_tables(page.addr_spec()) == 0);
                                        assert(!sp.blocked(page.addr_spec()));
                                        assert(!sp.leaf_present(va));
                                        assert(!pte_present(sp.entry1(va)));
                                        assert(false);
                                    } else {
                                        assert(space.entry1(w) == sp.entry1(w));
                                    }
                                }
                            }
                        }
                    }
                }
                out.push(
                    PageAssignment {
                        va: page,
                        frame: pf.pfa(),
                        content,
                        readable,
                        src_off: h.p_offset,
                        src_len: h.p_filesz,
                        page_off: va - h.p_vaddr,
                    },
                );
                va = va + 4096;
            }
        }
        p = p + 1;
    }
    Ok(out)
}

/// The content of one 4 KiB page of a segment being copied in: the
/// file-backed bytes at `page_off` past the file range's start, with a
/// zero-filled tail where the file range runs out.
pub fn page_payload(bytes: &Vec<u8>, file_off: u64, file_len: u64, page_off: u64) -> (r: Vec<u8>)
    requires
        file_off + file_len <= bytes@.len(),
    ensures
        r@.len() == 4096,
        forall|k: int|
            0 <= k < 4096 ==> r@[k] == (if page_off + k < file_len {
                bytes@[file_off + page_off + k]
            } else {
                0
            }),
{
    let mut r: Vec<u8> = Vec::new();
    let mut k: u64 = 0;
    while k < 4096
        invariant
            k <= 4096,
            r@.len() == k,
            file_off + file_len <= bytes@.len(),
            forall|j: int|
                0 <= j < k ==> r@[j] == (if page_off + j < file_len {
                    bytes@[file_off + page_off + j]
                } else {
                    0
                }),
        decreases 4096 - k,
    {
        let n = bytes.len();
        if page_off < file_len && k < file_len - page_off {
            proof {
                assert(page_off + k < file_len);
                assert(file_off + page_off + k < n);
            }
            let b = bytes[(file_off + page_off + k) as usize];
            r.push(b);
        } else {
            r.push(0);
        }
        k = k + 1;
    }
    r
}

} // verus!
