//! The recursive x86_64 page map.
//!
//! Hypatia keeps a recursive entry in each address-space root: slot 511
//! of the root table points back at the root itself, so every page-table
//! frame of the current space is addressable at a fixed virtual window,
//! and slot 510 may hold a second, "side-loaded" space whose tables appear
//! at a parallel set of windows.
//!
//! The map is modelled here explicitly: an [`AddressSpace`] owns the
//! page-table frames of the current tree (and of any foreign prototype
//! roots built through it), keyed by frame address.  All reads and writes
//! a hardware walker would perform through the recursive windows become
//! reads and writes of those tables, and every operation carries a
//! contract over the resulting translations.

use vstd::prelude::*;
use vstd::string::*;
use std::collections::HashMap;

verus! {

broadcast use vstd::std_specs::hash::group_hash_axioms;

/// Flag sets attached to a page-table entry are plain 64-bit masks.
pub type PTEFlags = u64;

/// Entry maps a page and the page is readable.
pub const PTE_PRESENT: u64 = 1;

/// The mapped page is writable.
pub const PTE_WRITE: u64 = 2;

/// The mapped page is reachable from user mode.
pub const PTE_USER: u64 = 4;

/// Write-through caching.
pub const PTE_WRTHRU: u64 = 8;

/// Caching disabled.
pub const PTE_NOCACHE: u64 = 16;

/// Set by hardware when the entry is used in a translation.
pub const PTE_ACCESS: u64 = 32;

/// Set by hardware when the mapped page is written.
pub const PTE_DIRTY: u64 = 64;

/// At levels 3 and 2, the entry is a big-page leaf.
pub const PTE_HUGE: u64 = 128;

/// The translation survives an address-space switch.
pub const PTE_GLOBAL: u64 = 256;

/// The mapped page is not executable.
pub const PTE_NX: u64 = 0x8000_0000_0000_0000;

/// The bits of an entry that hold its frame address.
pub const PFA_MASK: u64 = 0x0000_7FFF_FFFF_F000;

/// The bits of an entry that software assigns as flags.
pub const FLAGS_MASK: u64 = 0x8000_0000_0000_01FF;

/// The entry maps something.
pub open spec fn pte_present(e: u64) -> bool {
    e & PTE_PRESENT == PTE_PRESENT
}

/// The entry allows writes.
pub open spec fn pte_write(e: u64) -> bool {
    e & PTE_WRITE == PTE_WRITE
}

/// The entry is a big-page leaf.
pub open spec fn pte_huge(e: u64) -> bool {
    e & PTE_HUGE == PTE_HUGE
}

/// The frame address carried by the entry.
pub open spec fn pte_pfa(e: u64) -> u64 {
    e & PFA_MASK
}

/// `a` names a page frame: 4 KiB aligned and below 2^47.
pub open spec fn frame_addr_ok(a: u64) -> bool {
    a & PFA_MASK == a
}

/// The zero entry maps nothing.
pub proof fn lemma_pte_zero()
    ensures
        !pte_present(0),
        !pte_huge(0),
        !pte_write(0),
        pte_pfa(0) == 0,
{
    assert(0u64 & 1u64 == 0 && 0u64 & 128u64 == 0 && 0u64 & 2u64 == 0 && 0u64
        & 0x0000_7FFF_FFFF_F000u64 == 0) by (bit_vector);
}

/// An interior entry built from an aligned frame with PRESENT|WRITE is
/// present, writable, not huge, and carries exactly that frame.
pub proof fn lemma_pte_interior(f: u64)
    requires
        frame_addr_ok(f),
    ensures
        pte_present(f | 3),
        pte_write(f | 3),
        !pte_huge(f | 3),
        pte_pfa(f | 3) == f,
{
    assert(f & 0x0000_7FFF_FFFF_F000u64 == f ==> ((f | 3) & 1u64 == 1 && (f | 3) & 2u64 == 2 && (f
        | 3) & 128u64 == 0 && (f | 3) & 0x0000_7FFF_FFFF_F000u64 == f)) by (bit_vector);
}

/// A leaf entry built from an aligned frame keeps the frame address in
/// the address bits and the flag bits in the flag positions.
pub proof fn lemma_pte_leaf(h: u64, fl: u64)
    requires
        frame_addr_ok(h),
    ensures
        pte_pfa(h | (fl & FLAGS_MASK)) == h,
        pte_present(h | (fl & FLAGS_MASK)) == (fl & PTE_PRESENT == PTE_PRESENT),
        pte_write(h | (fl & FLAGS_MASK)) == (fl & PTE_WRITE == PTE_WRITE),
{
    assert(h & 0x0000_7FFF_FFFF_F000u64 == h ==> ((h | (fl & 0x8000_0000_0000_01FFu64))
        & 0x0000_7FFF_FFFF_F000u64 == h && ((h | (fl & 0x8000_0000_0000_01FFu64)) & 1u64) == (fl
        & 1u64) && ((h | (fl & 0x8000_0000_0000_01FFu64)) & 2u64) == (fl & 2u64))) by (bit_vector);
}

/// Addresses within one 4 KiB page share every table index and differ
/// only in the low twelve bits.
pub proof fn lemma_page_offset(va: u64, off: u64)
    requires
        va % 4096 == 0,
        off < 4096,
    ensures
        l4_index((va + off) as u64) == l4_index(va),
        l3_index((va + off) as u64) == l3_index(va),
        l2_index((va + off) as u64) == l2_index(va),
        l1_index((va + off) as u64) == l1_index(va),
        ((va + off) as u64) & 0xFFFu64 == off,
        va + off <= u64::MAX,
{
    let v = va;
    let o = off;
    assert(v % 4096 == 0 && o < 4096 ==> {
        let s = vstd::prelude::add(v, o);
        &&& ((s & 0x0000_FFFF_FFFF_FFFFu64) >> 39) & 0x1FF == ((v & 0x0000_FFFF_FFFF_FFFFu64)
            >> 39) & 0x1FF
        &&& ((s & 0x0000_FFFF_FFFF_FFFFu64) >> 30) & 0x1FF == ((v & 0x0000_FFFF_FFFF_FFFFu64)
            >> 30) & 0x1FF
        &&& ((s & 0x0000_FFFF_FFFF_FFFFu64) >> 21) & 0x1FF == ((v & 0x0000_FFFF_FFFF_FFFFu64)
            >> 21) & 0x1FF
        &&& ((s & 0x0000_FFFF_FFFF_FFFFu64) >> 12) & 0x1FF == ((v & 0x0000_FFFF_FFFF_FFFFu64)
            >> 12) & 0x1FF
        &&& s & 0xFFFu64 == o
        &&& v <= 0xFFFF_FFFF_FFFF_F000u64
    }) by (bit_vector);
    assert((va + off) as u64 == vstd::prelude::add(va, off));
}

/// `w` lies in `[start, end)` once both bounds are widened to whole
/// blocks of stride `s`: at or above `start`'s block, and inside a block
/// that begins below `end`.
pub open spec fn in_span(w: u64, start: u64, end: u64, s: u64) -> bool {
    &&& start - start % s <= w
    &&& w - w % s < end
}

/// Some address of some range, widened to 512 GiB blocks, shares `w`'s
/// root-table slot.
pub open spec fn covers_slot(ranges: Seq<VRange>, w: u64) -> bool {
    exists|va2: u64, k: int|
        0 <= k < ranges.len() && #[trigger] in_span(
            va2,
            ranges[k].start.addr_spec(),
            ranges[k].end.addr_spec(),
            0x80_0000_0000u64,
        ) && l4_index(va2) == l4_index(w)
}

/// For nested strides, the remainder by the smaller never exceeds the
/// remainder by the larger.
pub proof fn lemma_mod_nested(a: int, s: int, t: int)
    requires
        0 <= a,
        0 < s,
        0 < t,
        t % s == 0,
    ensures
        a % s <= a % t,
{
    let q = a / t;
    let r = a % t;
    let k = t / s;
    vstd::arithmetic::div_mod::lemma_fundamental_div_mod(a, t);
    vstd::arithmetic::div_mod::lemma_fundamental_div_mod(t, s);
    assert(t * q == s * (k * q)) by (nonlinear_arith)
        requires
            t == s * k,
    ;
    vstd::arithmetic::div_mod::lemma_mod_multiples_vanish(k * q, r, s);
    vstd::arithmetic::div_mod::lemma_mod_bound(a, t);
    if r < s {
        vstd::arithmetic::div_mod::lemma_small_mod(r as nat, s as nat);
    } else {
        vstd::arithmetic::div_mod::lemma_mod_bound(r, s);
    }
}

/// Addresses within one 512 GiB block share their root-table index.
pub proof fn lemma_block_offset_512(b: u64, off: u64)
    requires
        b % 0x80_0000_0000 == 0,
        off < 0x80_0000_0000,
    ensures
        b + off <= u64::MAX,
        l4_index((b + off) as u64) == l4_index(b),
{
    let v = b;
    let o = off;
    assert(v % 0x80_0000_0000 == 0 && o < 0x80_0000_0000 ==> {
        let s = vstd::prelude::add(v, o);
        &&& ((s & 0x0000_FFFF_FFFF_FFFFu64) >> 39) & 0x1FF == ((v & 0x0000_FFFF_FFFF_FFFFu64)
            >> 39) & 0x1FF
        &&& v <= 0xFFFF_FF80_0000_0000u64
    }) by (bit_vector);
    assert((b + off) as u64 == vstd::prelude::add(b, off));
}

/// Addresses within one 1 GiB block share their root- and L3-table
/// indexes.
pub proof fn lemma_block_offset_1g(b: u64, off: u64)
    requires
        b % 0x4000_0000 == 0,
        off < 0x4000_0000,
    ensures
        b + off <= u64::MAX,
        l4_index((b + off) as u64) == l4_index(b),
        l3_index((b + off) as u64) == l3_index(b),
{
    let v = b;
    let o = off;
    assert(v % 0x4000_0000 == 0 && o < 0x4000_0000 ==> {
        let s = vstd::prelude::add(v, o);
        &&& ((s & 0x0000_FFFF_FFFF_FFFFu64) >> 39) & 0x1FF == ((v & 0x0000_FFFF_FFFF_FFFFu64)
            >> 39) & 0x1FF
        &&& ((s & 0x0000_FFFF_FFFF_FFFFu64) >> 30) & 0x1FF == ((v & 0x0000_FFFF_FFFF_FFFFu64)
            >> 30) & 0x1FF
        &&& v <= 0xFFFF_FFFF_C000_0000u64
    }) by (bit_vector);
    assert((b + off) as u64 == vstd::prelude::add(b, off));
}

/// Addresses within one 2 MiB block share their root-, L3- and L2-table
/// indexes.
pub proof fn lemma_block_offset_2m(b: u64, off: u64)
    requires
        b % 0x20_0000 == 0,
        off < 0x20_0000,
    ensures
        b + off <= u64::MAX,
        l4_index((b + off) as u64) == l4_index(b),
        l3_index((b + off) as u64) == l3_index(b),
        l2_index((b + off) as u64) == l2_index(b),
{
    let v = b;
    let o = off;
    assert(v % 0x20_0000 == 0 && o < 0x20_0000 ==> {
        let s = vstd::prelude::add(v, o);
        &&& ((s & 0x0000_FFFF_FFFF_FFFFu64) >> 39) & 0x1FF == ((v & 0x0000_FFFF_FFFF_FFFFu64)
            >> 39) & 0x1FF
        &&& ((s & 0x0000_FFFF_FFFF_FFFFu64) >> 30) & 0x1FF == ((v & 0x0000_FFFF_FFFF_FFFFu64)
            >> 30) & 0x1FF
        &&& ((s & 0x0000_FFFF_FFFF_FFFFu64) >> 21) & 0x1FF == ((v & 0x0000_FFFF_FFFF_FFFFu64)
            >> 21) & 0x1FF
        &&& v <= 0xFFFF_FFFF_FFE0_0000u64
    }) by (bit_vector);
    assert((b + off) as u64 == vstd::prelude::add(b, off));
}

/// Every table index is a nine-bit value.
pub proof fn lemma_index_bounds(w: u64)
    ensures
        0 <= l4_index(w) < 512,
        0 <= l3_index(w) < 512,
        0 <= l2_index(w) < 512,
        0 <= l1_index(w) < 512,
{
    let x = w;
    assert(((x & 0x0000_FFFF_FFFF_FFFFu64) >> 39) & 0x1FF < 512 && ((x
        & 0x0000_FFFF_FFFF_FFFFu64) >> 30) & 0x1FF < 512 && ((x & 0x0000_FFFF_FFFF_FFFFu64)
        >> 21) & 0x1FF < 512 && ((x & 0x0000_FFFF_FFFF_FFFFu64) >> 12) & 0x1FF < 512)
        by (bit_vector);
}

/// Span membership at a finer stride implies membership at any coarser
/// stride that the finer one divides.
pub proof fn lemma_span_nested(w: u64, start: u64, end: u64)
    ensures
        in_span(w, start, end, 0x4000_0000u64) ==> in_span(w, start, end, 0x80_0000_0000u64),
        in_span(w, start, end, 0x20_0000u64) ==> in_span(w, start, end, 0x4000_0000u64),
{
    lemma_mod_nested(start as int, 0x4000_0000, 0x80_0000_0000);
    lemma_mod_nested(w as int, 0x4000_0000, 0x80_0000_0000);
    lemma_mod_nested(start as int, 0x20_0000, 0x4000_0000);
    lemma_mod_nested(w as int, 0x20_0000, 0x4000_0000);
}

/// A half-open range of 4 KiB-aligned virtual addresses.
#[derive(Clone, Copy, Debug)]
pub struct VRange {
    /// First page of the range.
    pub start: crate::V4KA,
    /// One past the last page of the range.
    pub end: crate::V4KA,
}

/// A page-table entry: a 64-bit word holding a frame address and flags.
///
/// On hardware these words are read and written atomically, since a page
/// walker on another processor may observe them; the boot processor is
/// the only mutator, so the value itself is all the model needs.
#[derive(Clone, Copy, Debug, PartialEq, Eq, Structural)]
pub struct PTE {
    bits: u64,
}

impl PTE {
    /// The raw word.
    pub closed spec fn bits_spec(self) -> u64 {
        self.bits
    }

    /// Creates a new PTE from the given HPA and flags.
    pub fn new(hpa: crate::HPA, flags: PTEFlags) -> (r: PTE)
        requires
            frame_addr_ok(hpa.addr_spec()),
        ensures
            r.bits_spec() == hpa.addr_spec() | (flags & FLAGS_MASK),
            pte_pfa(r.bits_spec()) == hpa.addr_spec(),
    {
        let address = hpa.addr() & PFA_MASK;
        let bits: u64 = address | (flags & FLAGS_MASK);
        proof {
            let a = hpa.addr_spec();
            let f = flags;
            assert(a & PFA_MASK == a ==> ((a & PFA_MASK) | (f & FLAGS_MASK)) & PFA_MASK == a)
                by (bit_vector);
        }
        PTE { bits }
    }

    /// Creates an empty (zero) PTE.
    pub fn empty() -> (r: PTE)
        ensures
            r.bits_spec() == 0,
    {
        PTE { bits: 0 }
    }

    /// Wraps a raw entry word.
    pub fn from_bits(bits: u64) -> (r: PTE)
        ensures
            r.bits_spec() == bits,
    {
        PTE { bits }
    }

    /// Zeroes out the PTE.
    pub fn clear(&mut self)
        ensures
            final(self).bits_spec() == 0,
    {
        self.bits = 0;
    }

    /// Sets the PRESENT bit in the PTE.
    pub fn enable(&mut self)
        ensures
            final(self).bits_spec() == old(self).bits_spec() | PTE_PRESENT,
    {
        self.bits = self.bits | PTE_PRESENT;
    }

    /// Clears the PRESENT bit in the PTE, disabling access to the region
    /// it describes.
    pub fn disable(&mut self)
        ensures
            final(self).bits_spec() == old(self).bits_spec() & !PTE_PRESENT,
    {
        self.bits = self.bits & !PTE_PRESENT;
    }

    /// Assigns self the value of the given PTE.
    pub fn assign(&mut self, pte: PTE)
        ensures
            final(self).bits_spec() == pte.bits_spec(),
    {
        self.bits = pte.bits;
    }

    /// Returns the physical frame address associated with the PTE.
    pub fn pfa(&self) -> (r: crate::HPA)
        ensures
            r.addr_spec() == pte_pfa(self.bits_spec()),
    {
        crate::HPA::new(self.bits & PFA_MASK)
    }

    /// Extracts and returns the flags attached to this PTE.
    pub fn flags(&self) -> (r: PTEFlags)
        ensures
            r == self.bits_spec() & FLAGS_MASK,
    {
        self.bits & FLAGS_MASK
    }

    /// Returns true iff the PTE is marked PRESENT.
    pub fn is_present(&self) -> (r: bool)
        ensures
            r == pte_present(self.bits_spec()),
    {
        self.bits & PTE_PRESENT == PTE_PRESENT
    }

    /// Returns true iff the bit marking this either a huge or large page
    /// is set.
    pub fn is_big(&self) -> (r: bool)
        ensures
            r == pte_huge(self.bits_spec()),
    {
        self.bits & PTE_HUGE == PTE_HUGE
    }

    /// The flag character at position `bit` of the rendering: the
    /// letter when the flag is set, a dash otherwise.
    pub open spec fn flag_char_spec(e: u64, mask: u64, letter: char) -> Seq<char> {
        if e & mask == mask {
            seq![letter]
        } else {
            seq!['-']
        }
    }

    /// The rendering of an entry: execute marker, frame address in
    /// hex, then the global, huge, dirty, accessed, no-cache, user,
    /// write and present flags.  The no-cache letter carries a
    /// combining stroke.
    pub open spec fn describe_spec(e: u64) -> Seq<char> {
        (if e & PTE_NX == PTE_NX {
            seq!['-']
        } else {
            seq!['X']
        }) + seq![':', '0', 'x'] + hex_chars(pte_pfa(e)) + seq![':'] + Self::flag_char_spec(
            e,
            PTE_GLOBAL,
            'G',
        ) + Self::flag_char_spec(e, PTE_HUGE, 'H') + Self::flag_char_spec(e, PTE_DIRTY, 'D')
            + Self::flag_char_spec(e, PTE_ACCESS, 'A') + (if e & PTE_NOCACHE == PTE_NOCACHE {
            seq!['C', '\u{336}']
        } else {
            seq!['-']
        }) + Self::flag_char_spec(e, PTE_USER, 'U') + Self::flag_char_spec(e, PTE_WRITE, 'W')
            + Self::flag_char_spec(e, PTE_PRESENT, 'R')
    }

    /// Renders the entry for the log, as
    /// `execute:frame-address:flags`.
    #[verifier::rlimit(100)]
    pub fn describe(&self) -> (r: String)
        ensures
            r@ == Self::describe_spec(self.bits_spec()),
    {
        let ghost e = self.bits_spec();
        let mut s = String::new();
        if self.bits & PTE_NX == PTE_NX {
            s.append("-");
        } else {
            s.append("X");
        }
        s.append(":0x");
        push_hex(&mut s, self.bits & PFA_MASK);
        let ghost head = s@;
        proof {
            reveal_strlit("-");
            reveal_strlit("X");
            reveal_strlit(":0x");
            assert(head =~= (if e & PTE_NX == PTE_NX {
                seq!['-']
            } else {
                seq!['X']
            }) + seq![':', '0', 'x'] + hex_chars(pte_pfa(e)));
        }
        s.append(":");
        push_flag(&mut s, self.bits, PTE_GLOBAL, "G");
        push_flag(&mut s, self.bits, PTE_HUGE, "H");
        push_flag(&mut s, self.bits, PTE_DIRTY, "D");
        let ghost mid = s@;
        proof {
            reveal_strlit(":");
            reveal_strlit("G");
            reveal_strlit("H");
            reveal_strlit("D");
            assert(mid =~= head + seq![':'] + Self::flag_char_spec(e, PTE_GLOBAL, 'G')
                + Self::flag_char_spec(e, PTE_HUGE, 'H') + Self::flag_char_spec(
                e,
                PTE_DIRTY,
                'D',
            ));
        }
        push_flag(&mut s, self.bits, PTE_ACCESS, "A");
        push_flag(&mut s, self.bits, PTE_NOCACHE, "C\u{336}");
        push_flag(&mut s, self.bits, PTE_USER, "U");
        push_flag(&mut s, self.bits, PTE_WRITE, "W");
        push_flag(&mut s, self.bits, PTE_PRESENT, "R");
        proof {
            reveal_strlit("A");
            reveal_strlit("C\u{336}");
            reveal_strlit("U");
            reveal_strlit("W");
            reveal_strlit("R");
            assert(s@ =~= mid + Self::flag_char_spec(e, PTE_ACCESS, 'A') + (if e & PTE_NOCACHE
                == PTE_NOCACHE {
                seq!['C', '\u{336}']
            } else {
                seq!['-']
            }) + Self::flag_char_spec(e, PTE_USER, 'U') + Self::flag_char_spec(e, PTE_WRITE, 'W')
                + Self::flag_char_spec(e, PTE_PRESENT, 'R'));
            assert(s@ =~= Self::describe_spec(e));
        }
        s
    }

    /// Returns true iff the entry is zero.
    pub fn is_zero(&self) -> (r: bool)
        ensures
            r == (self.bits_spec() == 0),
    {
        self.bits == 0
    }
}

/// The lowercase hex digit for a value below sixteen.
pub open spec fn hex_digit(d: u64) -> char {
    if d == 0 {
        '0'
    } else if d == 1 {
        '1'
    } else if d == 2 {
        '2'
    } else if d == 3 {
        '3'
    } else if d == 4 {
        '4'
    } else if d == 5 {
        '5'
    } else if d == 6 {
        '6'
    } else if d == 7 {
        '7'
    } else if d == 8 {
        '8'
    } else if d == 9 {
        '9'
    } else if d == 10 {
        'a'
    } else if d == 11 {
        'b'
    } else if d == 12 {
        'c'
    } else if d == 13 {
        'd'
    } else if d == 14 {
        'e'
    } else {
        'f'
    }
}

/// The minimal lowercase hex rendering of `v`.
pub open spec fn hex_chars(v: u64) -> Seq<char>
    decreases v,
{
    if v < 16 {
        seq![hex_digit(v)]
    } else {
        hex_chars(v / 16) + seq![hex_digit(v % 16)]
    }
}

/// Appends the minimal lowercase hex rendering of `v` to `s`.
fn push_hex(s: &mut String, v: u64)
    ensures
        final(s)@ == old(s)@ + hex_chars(v),
    decreases v,
{
    if v >= 16 {
        push_hex(s, v / 16);
    }
    let digit: &str = match v % 16 {
        0 => "0",
        1 => "1",
        2 => "2",
        3 => "3",
        4 => "4",
        5 => "5",
        6 => "6",
        7 => "7",
        8 => "8",
        9 => "9",
        10 => "a",
        11 => "b",
        12 => "c",
        13 => "d",
        14 => "e",
        _ => "f",
    };
    s.append(digit);
    proof {
        reveal_strlit("0");
        reveal_strlit("1");
        reveal_strlit("2");
        reveal_strlit("3");
        reveal_strlit("4");
        reveal_strlit("5");
        reveal_strlit("6");
        reveal_strlit("7");
        reveal_strlit("8");
        reveal_strlit("9");
        reveal_strlit("a");
        reveal_strlit("b");
        reveal_strlit("c");
        reveal_strlit("d");
        reveal_strlit("e");
        reveal_strlit("f");
        if v < 16 {
            assert(final(s)@ =~= old(s)@ + hex_chars(v));
        } else {
            assert(final(s)@ =~= old(s)@ + hex_chars(v));
        }
    }
}

/// Appends the flag letter, or a dash, to `s`.
fn push_flag(s: &mut String, e: u64, mask: u64, letter: &str)
    ensures
        (e & mask == mask) ==> final(s)@ == old(s)@ + letter@,
        (e & mask != mask) ==> final(s)@ == old(s)@ + seq!['-'],
{
    if e & mask == mask {
        s.append(letter);
    } else {
        s.append("-");
        proof {
            reveal_strlit("-");
            assert(final(s)@ =~= old(s)@ + seq!['-']);
        }
    }
}

/// Base of the virtual window onto the current space's root table.
pub const BASE_ADDRESS_L4: u64 = 0xFFFF_FFFF_FFFF_F000;

/// Base of the virtual window onto the side-loaded space's root table.
pub const SIDE_BASE_ADDRESS_L4: u64 = 0xFFFF_FFFF_FFFF_E000;

/// Base of the virtual window onto the current space's L3 tables.
pub const BASE_ADDRESS_L3: u64 = 0xFFFF_FFFF_FFE0_0000;

/// Base of the virtual window onto the side-loaded space's L3 tables.
pub const SIDE_BASE_ADDRESS_L3: u64 = 0xFFFF_FFFF_FFC0_0000;

/// Base of the virtual window onto the current space's L2 tables.
pub const BASE_ADDRESS_L2: u64 = 0xFFFF_FFFF_C000_0000;

/// Base of the virtual window onto the side-loaded space's L2 tables.
pub const SIDE_BASE_ADDRESS_L2: u64 = 0xFFFF_FFFF_8000_0000;

/// Base of the virtual window onto the current space's L1 tables.
pub const BASE_ADDRESS_L1: u64 = 0xFFFF_FF80_0000_0000;

/// Base of the virtual window onto the side-loaded space's L1 tables.
pub const SIDE_BASE_ADDRESS_L1: u64 = 0xFFFF_FF00_0000_0000;

/// Slot of the recursive self-map entry in every root table.
pub const SELF_INDEX: u64 = 511;

/// Slot of the side-load entry in every root table.
pub const SIDE_INDEX: u64 = 510;

/// The 48 address bits that take part in translation.
pub const ADDRESS_MASK: u64 = 0x0000_FFFF_FFFF_FFFF;

/// Window index of `va` at the root level: its offset, in entries, into
/// the virtual window that holds all root-level entries.
pub open spec fn l4_window_index(va: u64) -> u64 {
    (va & ADDRESS_MASK) >> 39
}

/// Window index of `va` at level 3.
pub open spec fn l3_window_index(va: u64) -> u64 {
    (va & ADDRESS_MASK) >> 30
}

/// Window index of `va` at level 2.
pub open spec fn l2_window_index(va: u64) -> u64 {
    (va & ADDRESS_MASK) >> 21
}

/// Window index of `va` at level 1.
pub open spec fn l1_window_index(va: u64) -> u64 {
    (va & ADDRESS_MASK) >> 12
}

/// Index of `va` within its root table: the low nine bits of the window
/// index.
pub open spec fn l4_index(va: u64) -> int {
    (l4_window_index(va) & 0x1FF) as int
}

/// Index of `va` within its L3 table.
pub open spec fn l3_index(va: u64) -> int {
    (l3_window_index(va) & 0x1FF) as int
}

/// Index of `va` within its L2 table.
pub open spec fn l2_index(va: u64) -> int {
    (l2_window_index(va) & 0x1FF) as int
}

/// Index of `va` within its L1 table.
pub open spec fn l1_index(va: u64) -> int {
    (l1_window_index(va) & 0x1FF) as int
}

/// Leaf-entry flags for the given R/W/X permissions: readable maps to
/// PRESENT, writable to WRITE, and non-executable to NX.
pub open spec fn page_perm_flags_spec(r: bool, w: bool, x: bool) -> u64 {
    (if r {
        PTE_PRESENT
    } else {
        0
    }) | (if w {
        PTE_WRITE
    } else {
        0
    }) | (if !x {
        PTE_NX
    } else {
        0
    })
}

/// Converts R/W/X permissions to page flags.
fn page_perm_flags(r: bool, w: bool, x: bool) -> (res: u64)
    ensures
        res == page_perm_flags_spec(r, w, x),
{
    (if r {
        PTE_PRESENT
    } else {
        0
    }) | (if w {
        PTE_WRITE
    } else {
        0
    }) | (if !x {
        PTE_NX
    } else {
        0
    })
}

/// The permission flags carry PRESENT exactly when the page is
/// readable.
proof fn lemma_perm_present(r: bool, w: bool, x: bool)
    ensures
        pte_present(page_perm_flags_spec(r, w, x)) == r,
{
    let a: u64 = if r {
        1
    } else {
        0
    };
    let b: u64 = if w {
        2
    } else {
        0
    };
    let c: u64 = if !x {
        0x8000_0000_0000_0000
    } else {
        0
    };
    assert(2u64 & 1u64 == 0 && 0u64 & 1u64 == 0 && 0x8000_0000_0000_0000u64 & 1u64 == 0)
        by (bit_vector);
    assert(b & 1u64 == 0 && c & 1u64 == 0 ==> ((1u64 | b | c) & 1u64 == 1u64 && (0u64 | b | c)
        & 1u64 == 0u64)) by (bit_vector);
}

/// The root level of the paging radix tree, covering 512 GiB per entry.
pub struct Level4 {}

impl Level4 {
    /// Offset, in entries, of the entry for `va` into the root window.
    pub fn index(va: u64) -> (r: u64)
        ensures
            r == l4_window_index(va),
    {
        (va & ADDRESS_MASK) >> 39u64
    }
}

/// The level of the tree covering 1 GiB per entry.
pub struct Level3 {}

impl Level3 {
    /// Offset, in entries, of the entry for `va` into the L3 window.
    pub fn index(va: u64) -> (r: u64)
        ensures
            r == l3_window_index(va),
    {
        (va & ADDRESS_MASK) >> 30u64
    }
}

/// The level of the tree covering 2 MiB per entry.
pub struct Level2 {}

impl Level2 {
    /// Offset, in entries, of the entry for `va` into the L2 window.
    pub fn index(va: u64) -> (r: u64)
        ensures
            r == l2_window_index(va),
    {
        (va & ADDRESS_MASK) >> 21u64
    }
}

/// The leaf level of the tree, covering 4 KiB per entry.
pub struct Level1 {}

impl Level1 {
    /// Offset, in entries, of the entry for `va` into the L1 window.
    pub fn index(va: u64) -> (r: u64)
        ensures
            r == l1_window_index(va),
    {
        (va & ADDRESS_MASK) >> 12u64
    }
}

/// Failures of the page-map operations.
#[derive(Clone, Copy, Debug, PartialEq, Eq, Structural)]
pub enum MapError {
    /// The leaf entry (or a covering big page) is already present.
    AlreadyMapped,
    /// The frame supply ran out while interior tables were needed.
    AllocatorFailed,
    /// The virtual address lies in a self- or side-map window.
    ForbiddenRegion,
}

/// A supply of fresh, zeroed 4 KiB page frames: the window
/// `[next, end)`, handed out low to high.
///
/// This stands in for the per-binary bump allocator the loader threads
/// through the map operations: every frame it yields is 4 KiB aligned,
/// below the 2^47 physical limit, and distinct from every frame it has
/// yielded before.
#[derive(Clone, Copy, Debug)]
pub struct FrameSupply {
    next: u64,
    end: u64,
}

impl FrameSupply {
    /// The next frame this supply would hand out.
    pub closed spec fn next_spec(self) -> u64 {
        self.next
    }

    /// The end of the supply's window.
    pub closed spec fn end_spec(self) -> u64 {
        self.end
    }

    /// The supply's window is aligned, ordered and within the physical
    /// limit.
    pub open spec fn wf(self) -> bool {
        &&& self.next_spec() % 4096 == 0
        &&& self.end_spec() % 4096 == 0
        &&& self.next_spec() <= self.end_spec()
        &&& self.end_spec() <= 0x8000_0000_0000u64
    }

    /// How many frames are left.
    pub open spec fn avail(self) -> int {
        (self.end_spec() - self.next_spec()) / 4096
    }

    /// A supply over the frames of `[start, end)`.
    pub fn new(start: u64, end: u64) -> (r: FrameSupply)
        requires
            start % 4096 == 0,
            end % 4096 == 0,
            start <= end,
            end <= 0x8000_0000_0000u64,
        ensures
            r.wf(),
            r.next_spec() == start,
            r.end_spec() == end,
    {
        FrameSupply { next: start, end }
    }

    /// Hands out the next frame, or `None` when the window is spent.
    pub fn take(&mut self) -> (r: Option<crate::PF4K>)
        requires
            old(self).wf(),
        ensures
            final(self).wf(),
            final(self).end_spec() == old(self).end_spec(),
            match r {
                Some(pf) => {
                    &&& old(self).avail() > 0
                    &&& pf.pfa_spec().addr_spec() == old(self).next_spec()
                    &&& final(self).next_spec() == old(self).next_spec() + 4096
                    &&& frame_addr_ok(pf.pfa_spec().addr_spec())
                },
                None => {
                    &&& old(self).avail() == 0
                    &&& *final(self) == *old(self)
                },
            },
    {
        if self.next < self.end {
            let a = self.next;
            self.next = a + 4096;
            proof {
                let x = a;
                assert(x % 4096 == 0 && x < 0x8000_0000_0000u64 ==> x & 0x0000_7FFF_FFFF_F000u64
                    == x) by (bit_vector);
            }
            Some(crate::PF4K::new(crate::HPA::new(a)))
        } else {
            None
        }
    }
}


/// Exec mirror of [`l4_index`]: the entry slot of `va` in its root table.
fn idx4(va: u64) -> (r: usize)
    ensures
        r == l4_index(va),
        r < 512,
{
    proof {
        let v = va;
        assert(((v & 0x0000_FFFF_FFFF_FFFFu64) >> 39) & 0x1FF < 512) by (bit_vector);
    }
    (((va & ADDRESS_MASK) >> 39) & 0x1FF) as usize
}

/// Exec mirror of [`l3_index`].
fn idx3(va: u64) -> (r: usize)
    ensures
        r == l3_index(va),
        r < 512,
{
    proof {
        let v = va;
        assert(((v & 0x0000_FFFF_FFFF_FFFFu64) >> 30) & 0x1FF < 512) by (bit_vector);
    }
    (((va & ADDRESS_MASK) >> 30) & 0x1FF) as usize
}

/// Exec mirror of [`l2_index`].
fn idx2(va: u64) -> (r: usize)
    ensures
        r == l2_index(va),
        r < 512,
{
    proof {
        let v = va;
        assert(((v & 0x0000_FFFF_FFFF_FFFFu64) >> 21) & 0x1FF < 512) by (bit_vector);
    }
    (((va & ADDRESS_MASK) >> 21) & 0x1FF) as usize
}

/// Exec mirror of [`l1_index`].
fn idx1(va: u64) -> (r: usize)
    ensures
        r == l1_index(va),
        r < 512,
{
    proof {
        let v = va;
        assert(((v & 0x0000_FFFF_FFFF_FFFFu64) >> 12) & 0x1FF < 512) by (bit_vector);
    }
    (((va & ADDRESS_MASK) >> 12) & 0x1FF) as usize
}

/// The role each page-table frame plays in the forest rooted at the
/// current space: the intermediate tables at each level, plus the roots
/// of foreign (side-loadable) spaces built through this one.
pub struct LevelSets {
    /// Frames serving as tables one level below a root.
    pub l3s: Set<u64>,
    /// Frames serving as tables two levels below a root.
    pub l2s: Set<u64>,
    /// Frames serving as leaf-level tables.
    pub l1s: Set<u64>,
    /// Roots of foreign address spaces reachable through slot 510.
    pub roots: Set<u64>,
}

/// An address space, modelled explicitly: the page-table frames of the
/// current tree and of any foreign prototype roots built through it,
/// keyed by frame address, together with the ghost role of each frame.
pub struct AddressSpace {
    root: u64,
    tables: HashMap<u64, Vec<u64>>,
    levels: Ghost<LevelSets>,
}

impl AddressSpace {
    /// The frame address of the root table.
    pub closed spec fn root_spec(self) -> u64 {
        self.root
    }

    /// The role sets of the space's frames.
    pub closed spec fn sets(self) -> LevelSets {
        self.levels@
    }

    /// Whether `f` holds a page table of this space.
    pub closed spec fn has_table(self, f: u64) -> bool {
        self.tables@.contains_key(f)
    }

    /// The 512 entries of the table at frame `f`.
    pub closed spec fn table(self, f: u64) -> Seq<u64> {
        self.tables@[f]@
    }

    /// `f` holds a well-formed table frame.
    pub open spec fn table_ok(self, f: u64) -> bool {
        &&& self.has_table(f)
        &&& self.table(f).len() == 512
        &&& frame_addr_ok(f)
    }

    /// A root-level entry: if present it is a non-huge, writable pointer
    /// to a frame serving as an L3 table.
    pub open spec fn root_entry_ok(self, e: u64) -> bool {
        pte_present(e) ==> {
            &&& !pte_huge(e)
            &&& pte_write(e)
            &&& self.sets().l3s.contains(pte_pfa(e))
        }
    }

    /// A mid-level entry: if present and not a big-page leaf it is a
    /// writable pointer into `children`; big-page leaves are aligned to
    /// the size they map.
    pub open spec fn mid_entry_ok(e: u64, children: Set<u64>, big_align: u64) -> bool {
        &&& (pte_present(e) && !pte_huge(e)) ==> (pte_write(e) && children.contains(pte_pfa(e)))
        &&& (pte_present(e) && pte_huge(e)) ==> pte_pfa(e) % big_align == 0
    }

    /// Well-formedness of the whole space.
    ///
    /// The roles partition the table frames; every table has 512 entries;
    /// slot 511 of the root points back at the root; slot 510, when
    /// present, points at a foreign root; and every present non-leaf
    /// entry points one level down.
    pub open spec fn wf(self) -> bool {
        let g = self.sets();
        let root = self.root_spec();
        &&& self.table_ok(root)
        &&& forall|f: u64| #[trigger] g.roots.contains(f) ==> self.table_ok(f)
        &&& forall|f: u64| #[trigger] g.l3s.contains(f) ==> self.table_ok(f)
        &&& forall|f: u64| #[trigger] g.l2s.contains(f) ==> self.table_ok(f)
        &&& forall|f: u64| #[trigger] g.l1s.contains(f) ==> self.table_ok(f)
        &&& forall|f: u64| #[trigger] g.roots.contains(f) ==> f != root && !g.l3s.contains(f)
            && !g.l2s.contains(f) && !g.l1s.contains(f)
        &&& forall|f: u64| #[trigger] g.l3s.contains(f) ==> f != root && !g.l2s.contains(f)
            && !g.l1s.contains(f)
        &&& forall|f: u64| #[trigger] g.l2s.contains(f) ==> f != root && !g.l1s.contains(f)
        &&& forall|f: u64| #[trigger] g.l1s.contains(f) ==> f != root
        &&& self.table(root)[511] == root | 3u64
        &&& {
            let e = self.table(root)[510];
            pte_present(e) ==> !pte_huge(e) && g.roots.contains(pte_pfa(e))
        }
        &&& forall|i: int|
            0 <= i < 510 ==> self.root_entry_ok(#[trigger] self.table(root)[i])
        &&& forall|f: u64, i: int|
            g.roots.contains(f) && 0 <= i < 512 ==> self.root_entry_ok(
                #[trigger] self.table(f)[i],
            )
        &&& forall|f: u64, i: int|
            g.l3s.contains(f) && 0 <= i < 512 ==> Self::mid_entry_ok(
                #[trigger] self.table(f)[i],
                g.l2s,
                0x4000_0000u64,
            )
        &&& forall|f: u64, i: int|
            g.l2s.contains(f) && 0 <= i < 512 ==> Self::mid_entry_ok(
                #[trigger] self.table(f)[i],
                g.l1s,
                0x20_0000u64,
            )
    }

    /// No frame the supply can still hand out holds a table of this
    /// space.
    pub open spec fn supply_fresh(self, s: FrameSupply) -> bool {
        forall|a: u64|
            s.next_spec() <= a < s.end_spec() ==> !(#[trigger] self.has_table(a))
    }

    /// The root-level entry covering `va`.
    pub open spec fn entry4(self, va: u64) -> u64 {
        self.table(self.root_spec())[l4_index(va)]
    }

    /// The frame of the L3 table covering `va`.
    pub open spec fn l3_frame(self, va: u64) -> u64 {
        pte_pfa(self.entry4(va))
    }

    /// The L3 entry covering `va`.
    pub open spec fn entry3(self, va: u64) -> u64 {
        self.table(self.l3_frame(va))[l3_index(va)]
    }

    /// The frame of the L2 table covering `va`.
    pub open spec fn l2_frame(self, va: u64) -> u64 {
        pte_pfa(self.entry3(va))
    }

    /// The L2 entry covering `va`.
    pub open spec fn entry2(self, va: u64) -> u64 {
        self.table(self.l2_frame(va))[l2_index(va)]
    }

    /// The frame of the L1 table covering `va`.
    pub open spec fn l1_frame(self, va: u64) -> u64 {
        pte_pfa(self.entry2(va))
    }

    /// The leaf entry covering `va`.
    pub open spec fn entry1(self, va: u64) -> u64 {
        self.table(self.l1_frame(va))[l1_index(va)]
    }

    /// What a hardware walk of `va` would yield in this space: the
    /// physical byte for `va`, or `None` if the walk never reaches a
    /// present leaf.  A present big-page entry at level 3 or 2
    /// terminates the walk, contributing the low 30 or 21 bits of `va`.
    pub open spec fn translate_spec(self, va: u64) -> Option<u64> {
        if !pte_present(self.entry4(va)) {
            None
        } else if !pte_present(self.entry3(va)) {
            None
        } else if pte_huge(self.entry3(va)) {
            Some((pte_pfa(self.entry3(va)) + (va & 0x3FFF_FFFFu64)) as u64)
        } else if !pte_present(self.entry2(va)) {
            None
        } else if pte_huge(self.entry2(va)) {
            Some((pte_pfa(self.entry2(va)) + (va & 0x1F_FFFFu64)) as u64)
        } else if !pte_present(self.entry1(va)) {
            None
        } else {
            Some((pte_pfa(self.entry1(va)) + (va & 0xFFFu64)) as u64)
        }
    }

    /// Frames a walk may pass through after the first step.
    pub open spec fn walkable3(self, f: u64) -> bool {
        f == self.root_spec() || self.sets().roots.contains(f) || self.sets().l3s.contains(f)
    }

    /// Frames a walk may pass through after the second step.
    pub open spec fn walkable2(self, f: u64) -> bool {
        self.walkable3(f) || self.sets().l2s.contains(f)
    }

    /// Frames a walk may pass through after the third step.
    pub open spec fn walkable1(self, f: u64) -> bool {
        self.walkable2(f) || self.sets().l1s.contains(f)
    }

    /// Following a present root-level entry lands on a table.
    proof fn lemma_l4_step(self, va: u64)
        requires
            self.wf(),
            pte_present(self.entry4(va)),
        ensures
            self.table_ok(self.l3_frame(va)),
            self.walkable3(self.l3_frame(va)),
    {
        let root = self.root_spec();
        let i = l4_index(va);
        assert(0 <= i < 512) by {
            lemma_index_bounds(va);
        }
        if i == 511 {
            assert(frame_addr_ok(root) ==> (root | 3u64) & 0x0000_7FFF_FFFF_F000u64 == root)
                by (bit_vector);
        } else if i == 510 {
        } else {
        }
    }

    /// Following a present, non-huge entry below a root or L3 table
    /// lands on a table.
    proof fn lemma_l3_step(self, va: u64)
        requires
            self.wf(),
            pte_present(self.entry4(va)),
            pte_present(self.entry3(va)),
            !pte_huge(self.entry3(va)),
        ensures
            self.table_ok(self.l2_frame(va)),
            self.walkable2(self.l2_frame(va)),
    {
        self.lemma_l4_step(va);
        let f3 = self.l3_frame(va);
        let root = self.root_spec();
        let i = l3_index(va);
        assert(0 <= i < 512) by {
            lemma_index_bounds(va);
        }
        if f3 == root {
            if i == 511 {
                assert(frame_addr_ok(root) ==> (root | 3u64) & 0x0000_7FFF_FFFF_F000u64 == root)
                    by (bit_vector);
            }
        }
    }

    /// Following a present, non-huge L2-level entry lands on a table.
    proof fn lemma_l2_step(self, va: u64)
        requires
            self.wf(),
            pte_present(self.entry4(va)),
            pte_present(self.entry3(va)),
            !pte_huge(self.entry3(va)),
            pte_present(self.entry2(va)),
            !pte_huge(self.entry2(va)),
        ensures
            self.table_ok(self.l1_frame(va)),
            self.walkable1(self.l1_frame(va)),
    {
        self.lemma_l3_step(va);
        let f2 = self.l2_frame(va);
        let root = self.root_spec();
        let i = l2_index(va);
        assert(0 <= i < 512) by {
            lemma_index_bounds(va);
        }
        if f2 == root {
            if i == 511 {
                assert(frame_addr_ok(root) ==> (root | 3u64) & 0x0000_7FFF_FFFF_F000u64 == root)
                    by (bit_vector);
            }
        }
    }

    /// Reads one entry of the table at frame `f`.
    fn table_entry(&self, f: u64, i: usize) -> (r: u64)
        requires
            self.has_table(f),
            self.table(f).len() == 512,
            i < 512,
        ensures
            r == self.table(f)[i as int],
    {
        let row = self.tables.get(&f).unwrap();
        row[i]
    }

    /// Overwrites one entry of the table at frame `f`.
    fn set_table_entry(&mut self, f: u64, i: usize, v: u64)
        requires
            old(self).has_table(f),
            old(self).table(f).len() == 512,
            i < 512,
        ensures
            final(self).root_spec() == old(self).root_spec(),
            final(self).sets() == old(self).sets(),
            forall|f2: u64| final(self).has_table(f2) <==> old(self).has_table(f2),
            final(self).table(f) == old(self).table(f).update(i as int, v),
            forall|f2: u64|
                f2 != f ==> #[trigger] final(self).table(f2) == old(self).table(f2),
    {
        let mut row = self.tables.remove(&f).unwrap();
        row.set(i, v);
        self.tables.insert(f, row);
        proof {
            assert(self.tables@ =~= old(self).tables@.insert(f, self.tables@[f]));
        }
    }

    /// A fresh table of 512 zero entries.
    fn zero_row() -> (r: Vec<u64>)
        ensures
            r@.len() == 512,
            forall|j: int| 0 <= j < 512 ==> r@[j] == 0,
    {
        let mut v: Vec<u64> = Vec::new();
        let mut i: usize = 0;
        while i < 512
            invariant
                v@.len() == i,
                i <= 512,
                forall|j: int| 0 <= j < i ==> v@[j] == 0,
            decreases 512 - i,
        {
            v.push(0);
            i = i + 1;
        }
        v
    }

    /// A fresh address space rooted at `root`: the root table is empty
    /// but for the recursive self-map entry in slot 511.
    pub fn new(root: crate::PF4K) -> (r: AddressSpace)
        requires
            frame_addr_ok(root.pfa_spec().addr_spec()),
        ensures
            r.wf(),
            r.root_spec() == root.pfa_spec().addr_spec(),
            r.sets().roots == Set::<u64>::empty(),
            r.sets().l3s == Set::<u64>::empty(),
            r.sets().l2s == Set::<u64>::empty(),
            r.sets().l1s == Set::<u64>::empty(),
            forall|f: u64| r.has_table(f) <==> f == root.pfa_spec().addr_spec(),
            forall|i: int| 0 <= i < 511 ==> r.table(root.pfa_spec().addr_spec())[i] == 0,
            forall|va: u64| l4_index(va) != 511 ==> r.translate_spec(va) is None,
    {
        let ra = root.pfa().addr();
        let mut row = Self::zero_row();
        row.set(511, ra | 3);
        let mut tables: HashMap<u64, Vec<u64>> = HashMap::new();
        tables.insert(ra, row);
        let r = AddressSpace {
            root: ra,
            tables,
            levels: Ghost(
                LevelSets {
                    l3s: Set::empty(),
                    l2s: Set::empty(),
                    l1s: Set::empty(),
                    roots: Set::empty(),
                },
            ),
        };
        proof {
            lemma_pte_zero();
            lemma_pte_interior(ra);
            assert(r.table(ra).len() == 512);
            assert(r.table(ra)[511] == ra | 3u64);
            assert(forall|i: int| 0 <= i < 511 ==> r.table(ra)[i] == 0);
            assert forall|va: u64| l4_index(va) != 511 implies r.translate_spec(va) is None by {
                let v = va;
                assert(((v & 0x0000_FFFF_FFFF_FFFFu64) >> 39) & 0x1FF < 512) by (bit_vector);
                assert(!pte_present(r.entry4(va)));
            }
        }
        r
    }

    /// Hands out a copy of the 512 entry words of the table at frame
    /// `f`, for the embedding program to place into physical memory, or
    /// `None` when `f` holds no table of this space.
    pub fn entry_words(&self, f: u64) -> (r: Option<Vec<u64>>)
        requires
            self.wf(),
        ensures
            match r {
                Some(v) => self.has_table(f) && self.table(f).len() == 512 && v@ == self.table(
                    f,
                ),
                None => !self.has_table(f) || self.table(f).len() != 512,
            },
    {
        if !self.tables.contains_key(&f) {
            return None;
        }
        if !self.table_len_is_512(f) {
            return None;
        }
        let mut v: Vec<u64> = Vec::new();
        let mut i: usize = 0;
        while i < 512
            invariant
                self.wf(),
                self.has_table(f),
                self.table(f).len() == 512,
                i <= 512,
                v@.len() == i,
                forall|j: int| 0 <= j < i ==> v@[j] == self.table(f)[j],
            decreases 512 - i,
        {
            let w = self.table_entry(f, i);
            v.push(w);
            i = i + 1;
        }
        proof {
            assert(v@ =~= self.table(f));
        }
        Some(v)
    }

    /// Whether the table at `f` has the full 512 entries (every table of
    /// a well-formed space does once it is in a role set).
    fn table_len_is_512(&self, f: u64) -> (r: bool)
        requires
            self.has_table(f),
        ensures
            r == (self.table(f).len() == 512),
    {
        let row = self.tables.get(&f).unwrap();
        row.len() == 512
    }

    /// The host physical address of the current space's root table.
    pub fn address_space_root(&self) -> (r: crate::HPA)
        ensures
            r.addr_spec() == self.root_spec(),
    {
        crate::HPA::new(self.root)
    }

    /// `va` lies outside every self- and side-map window (after
    /// truncation to the 48 translated bits).
    pub open spec fn mappable(va: u64) -> bool {
        &&& va < SIDE_BASE_ADDRESS_L1
        &&& l4_index(va) != 510
        &&& l4_index(va) != 511
    }

    /// The walk of `va` ends in a big-page leaf at level 3 or 2.
    pub open spec fn big_blocked(self, va: u64) -> bool {
        &&& pte_present(self.entry4(va))
        &&& pte_present(self.entry3(va))
        &&& (pte_huge(self.entry3(va)) || (pte_present(self.entry2(va)) && pte_huge(
            self.entry2(va),
        )))
    }

    /// The walk of `va` reaches a present leaf entry.
    pub open spec fn leaf_present(self, va: u64) -> bool {
        &&& pte_present(self.entry4(va))
        &&& pte_present(self.entry3(va))
        &&& !pte_huge(self.entry3(va))
        &&& pte_present(self.entry2(va))
        &&& !pte_huge(self.entry2(va))
        &&& pte_present(self.entry1(va))
    }

    /// Installing a leaf for `va` would overwrite an existing mapping.
    pub open spec fn blocked(self, va: u64) -> bool {
        self.big_blocked(va) || self.leaf_present(va)
    }

    /// How many interior tables are missing along the walk of `va`.
    pub open spec fn missing_tables(self, va: u64) -> int {
        if !pte_present(self.entry4(va)) {
            3
        } else if !pte_present(self.entry3(va)) {
            2
        } else if !pte_present(self.entry2(va)) {
            1
        } else {
            0
        }
    }

    /// For an address outside the map windows, each present step of the
    /// walk lands exactly one level down.
    pub proof fn lemma_mappable_path(self, va: u64)
        requires
            self.wf(),
            Self::mappable(va),
        ensures
            pte_present(self.entry4(va)) ==> {
                &&& self.sets().l3s.contains(self.l3_frame(va))
                &&& !pte_huge(self.entry4(va))
                &&& pte_write(self.entry4(va))
                &&& self.table_ok(self.l3_frame(va))
            },
            (pte_present(self.entry4(va)) && pte_present(self.entry3(va)) && !pte_huge(
                self.entry3(va),
            )) ==> {
                &&& self.sets().l2s.contains(self.l2_frame(va))
                &&& pte_write(self.entry3(va))
                &&& self.table_ok(self.l2_frame(va))
            },
            (pte_present(self.entry4(va)) && pte_present(self.entry3(va)) && !pte_huge(
                self.entry3(va),
            ) && pte_present(self.entry2(va)) && !pte_huge(self.entry2(va))) ==> {
                &&& self.sets().l1s.contains(self.l1_frame(va))
                &&& pte_write(self.entry2(va))
                &&& self.table_ok(self.l1_frame(va))
            },
    {
        lemma_index_bounds(va);
    }

    /// Installs a fresh, zeroed child table at entry `i` of the table at
    /// `f`, joining the role one level below `f`'s.
    ///
    /// `level` is the ghost level of the new child: 3 hangs it off the
    /// root, 2 off an L3 table, 1 off an L2 table.
    fn install_child_table(
        &mut self,
        f: u64,
        i: usize,
        supply: &mut FrameSupply,
        level: Ghost<int>,
    ) -> (r: Option<u64>)
        requires
            old(self).wf(),
            old(supply).wf(),
            old(self).supply_fresh(*old(supply)),
            i < 512,
            level@ == 3 || level@ == 2 || level@ == 1,
            level@ == 3 ==> ((f == old(self).root_spec() && i != 510 && i != 511) || old(
                self,
            ).sets().roots.contains(f)),
            level@ == 2 ==> old(self).sets().l3s.contains(f),
            level@ == 1 ==> old(self).sets().l2s.contains(f),
        ensures
            final(supply).wf(),
            final(supply).end_spec() == old(supply).end_spec(),
            final(self).root_spec() == old(self).root_spec(),
            final(self).supply_fresh(*final(supply)),
            match r {
                Some(nf) => {
                    &&& old(supply).avail() > 0
                    &&& final(supply).next_spec() == old(supply).next_spec() + 4096
                    &&& final(self).wf()
                    &&& nf == old(supply).next_spec()
                    &&& frame_addr_ok(nf)
                    &&& !old(self).has_table(nf)
                    &&& (forall|f2: u64|
                        final(self).has_table(f2) <==> old(self).has_table(f2) || f2 == nf)
                    &&& final(self).table(f) == old(self).table(f).update(i as int, nf | 3)
                    &&& (forall|f2: u64|
                        f2 != f && f2 != nf ==> #[trigger] final(self).table(f2) == old(
                            self,
                        ).table(f2))
                    &&& final(self).table(nf).len() == 512
                    &&& (forall|j: int| 0 <= j < 512 ==> final(self).table(nf)[j] == 0)
                    &&& (level@ == 3 ==> final(self).sets() == LevelSets {
                        l3s: old(self).sets().l3s.insert(nf),
                        l2s: old(self).sets().l2s,
                        l1s: old(self).sets().l1s,
                        roots: old(self).sets().roots,
                    })
                    &&& (level@ == 2 ==> final(self).sets() == LevelSets {
                        l3s: old(self).sets().l3s,
                        l2s: old(self).sets().l2s.insert(nf),
                        l1s: old(self).sets().l1s,
                        roots: old(self).sets().roots,
                    })
                    &&& (level@ == 1 ==> final(self).sets() == LevelSets {
                        l3s: old(self).sets().l3s,
                        l2s: old(self).sets().l2s,
                        l1s: old(self).sets().l1s.insert(nf),
                        roots: old(self).sets().roots,
                    })
                },
                None => {
                    &&& old(supply).avail() == 0
                    &&& *final(self) == *old(self)
                    &&& *final(supply) == *old(supply)
                },
            },
    {
        let pf = match supply.take() {
            Some(pf) => pf,
            None => {
                return None;
            },
        };
        let nf = pf.pfa().addr();
        proof {
            assert(!old(self).has_table(nf));
        }
        let row = Self::zero_row();
        self.tables.insert(nf, row);
        proof {
            let g0 = old(self).sets();
            if level@ == 3 {
                self.levels@ = LevelSets {
                    l3s: g0.l3s.insert(nf),
                    l2s: g0.l2s,
                    l1s: g0.l1s,
                    roots: g0.roots,
                };
            } else if level@ == 2 {
                self.levels@ = LevelSets {
                    l3s: g0.l3s,
                    l2s: g0.l2s.insert(nf),
                    l1s: g0.l1s,
                    roots: g0.roots,
                };
            } else {
                self.levels@ = LevelSets {
                    l3s: g0.l3s,
                    l2s: g0.l2s,
                    l1s: g0.l1s.insert(nf),
                    roots: g0.roots,
                };
            }
        }
        self.set_table_entry(f, i, nf | 3);
        proof {
            lemma_pte_zero();
            lemma_pte_interior(nf);
            let s0 = *old(self);
            let s2 = *self;
            let g0 = s0.sets();
            let g2 = s2.sets();
            assert forall|f2: u64| #[trigger] g2.roots.contains(f2) implies s2.table_ok(f2) by {
                assert(s0.table_ok(f2));
            }
            assert forall|f2: u64| #[trigger] g2.l3s.contains(f2) implies s2.table_ok(f2) by {
                if f2 != nf {
                    assert(s0.table_ok(f2));
                }
            }
            assert forall|f2: u64| #[trigger] g2.l2s.contains(f2) implies s2.table_ok(f2) by {
                if f2 != nf {
                    assert(s0.table_ok(f2));
                }
            }
            assert forall|f2: u64| #[trigger] g2.l1s.contains(f2) implies s2.table_ok(f2) by {
                if f2 != nf {
                    assert(s0.table_ok(f2));
                }
            }
            assert(s2.table(s2.root_spec())[511] == s2.root_spec() | 3u64);
            assert forall|f2: u64, i2: int|
                g2.roots.contains(f2) && 0 <= i2 < 512 implies s2.root_entry_ok(
                #[trigger] s2.table(f2)[i2],
            ) by {
                assert(s0.table_ok(f2));
                assert(s0.root_entry_ok(s0.table(f2)[i2]));
            }
            assert forall|i2: int| 0 <= i2 < 510 implies s2.root_entry_ok(
                #[trigger] s2.table(s2.root_spec())[i2],
            ) by {
                assert(s0.root_entry_ok(s0.table(s0.root_spec())[i2]));
            }
            assert forall|f2: u64, i2: int|
                g2.l3s.contains(f2) && 0 <= i2 < 512 implies Self::mid_entry_ok(
                #[trigger] s2.table(f2)[i2],
                g2.l2s,
                0x4000_0000u64,
            ) by {
                if f2 != nf {
                    assert(Self::mid_entry_ok(s0.table(f2)[i2], g0.l2s, 0x4000_0000u64));
                }
            }
            assert forall|f2: u64, i2: int|
                g2.l2s.contains(f2) && 0 <= i2 < 512 implies Self::mid_entry_ok(
                #[trigger] s2.table(f2)[i2],
                g2.l1s,
                0x20_0000u64,
            ) by {
                if f2 != nf {
                    assert(Self::mid_entry_ok(s0.table(f2)[i2], g0.l1s, 0x20_0000u64));
                }
            }
            assert(s2.wf());
            assert forall|a: u64|
                supply.next_spec() <= a < supply.end_spec() implies !(#[trigger] s2.has_table(
                a,
            )) by {
                assert(!old(self).has_table(a));
            }
        }
        Some(nf)
    }

    /// Maps `hpf` at `va` in this space with the given flags.
    ///
    /// Interior tables missing along the walk are created from `supply`
    /// as `PRESENT | WRITE` when `allow_alloc` is set; with it clear the
    /// walk must already reach the leaf level.  The call fails with
    /// `AlreadyMapped` when the leaf entry (or a covering big page) is
    /// already present, with `AllocatorFailed` when the supply runs dry,
    /// and with `ForbiddenRegion` for an address inside a self- or
    /// side-map window.
    pub fn map(
        &mut self,
        hpf: crate::PF4K,
        flags: PTEFlags,
        va: crate::V4KA,
        supply: &mut FrameSupply,
        allow_alloc: bool,
    ) -> (r: Result<(), MapError>)
        requires
            old(self).wf(),
            old(supply).wf(),
            old(self).supply_fresh(*old(supply)),
            frame_addr_ok(hpf.pfa_spec().addr_spec()),
        ensures
            final(self).wf(),
            final(supply).wf(),
            final(self).root_spec() == old(self).root_spec(),
            final(self).sets().roots == old(self).sets().roots,
            final(supply).end_spec() == old(supply).end_spec(),
            old(supply).next_spec() <= final(supply).next_spec(),
            final(self).supply_fresh(*final(supply)),
            r is Ok <==> (Self::mappable(va.addr_spec()) && !old(self).blocked(va.addr_spec())
                && old(self).missing_tables(va.addr_spec()) <= (if allow_alloc {
                old(supply).avail()
            } else {
                0
            })),
            r == Err::<(), MapError>(MapError::ForbiddenRegion) <==> !Self::mappable(
                va.addr_spec(),
            ),
            r == Err::<(), MapError>(MapError::AlreadyMapped) <==> (Self::mappable(
                va.addr_spec(),
            ) && old(self).blocked(va.addr_spec())),
            r is Ok ==> {
                let vaa = va.addr_spec();
                let leaf = hpf.pfa_spec().addr_spec() | (flags & FLAGS_MASK);
                &&& pte_present(final(self).entry4(vaa)) && pte_write(final(self).entry4(vaa))
                    && !pte_huge(final(self).entry4(vaa))
                &&& pte_present(final(self).entry3(vaa)) && pte_write(final(self).entry3(vaa))
                    && !pte_huge(final(self).entry3(vaa))
                &&& pte_present(final(self).entry2(vaa)) && pte_write(final(self).entry2(vaa))
                    && !pte_huge(final(self).entry2(vaa))
                &&& final(self).entry1(vaa) == leaf
                &&& (pte_present(leaf) ==> forall|off: u64|
                    off < 4096 ==> #[trigger] final(self).translate_spec((vaa + off) as u64)
                        == Some((hpf.pfa_spec().addr_spec() + off) as u64))
                &&& (!pte_present(leaf) ==> forall|off: u64|
                    off < 4096 ==> #[trigger] final(self).translate_spec((vaa + off) as u64)
                        is None)
            },
            !(r is Ok) ==> final(self).translate_spec(va.addr_spec()) == old(
                self,
            ).translate_spec(va.addr_spec()),
            (r is Ok && old(self).missing_tables(va.addr_spec()) == 0) ==> {
                let vaa = va.addr_spec();
                let f1 = old(self).l1_frame(vaa);
                let leaf = hpf.pfa_spec().addr_spec() | (flags & FLAGS_MASK);
                &&& (forall|f2: u64| final(self).has_table(f2) <==> old(self).has_table(f2))
                &&& (forall|f2: u64|
                    f2 != f1 ==> #[trigger] final(self).table(f2) == old(self).table(f2))
                &&& final(self).table(f1) == old(self).table(f1).update(l1_index(vaa), leaf)
                &&& final(self).sets() == old(self).sets()
            },
            (r == Err::<(), MapError>(MapError::AlreadyMapped) || r == Err::<(), MapError>(
                MapError::ForbiddenRegion,
            )) ==> *final(self) == *old(self) && *final(supply) == *old(supply),
            (!allow_alloc && !(r is Ok)) ==> *final(self) == *old(self) && *final(supply) == *old(
                supply,
            ),
            r is Ok ==> {
                let vaa = va.addr_spec();
                let m = old(self).missing_tables(vaa);
                let n0 = old(supply).next_spec();
                &&& final(supply).next_spec() == n0 + m * 4096
                &&& (m == 3 ==> {
                    &&& final(self).entry4(vaa) == n0 | 3u64
                    &&& final(self).entry3(vaa) == ((n0 + 4096) as u64 | 3u64)
                    &&& final(self).entry2(vaa) == ((n0 + 8192) as u64 | 3u64)
                })
                &&& (m == 2 ==> {
                    &&& final(self).entry3(vaa) == n0 | 3u64
                    &&& final(self).entry2(vaa) == ((n0 + 4096) as u64 | 3u64)
                })
                &&& (m == 1 ==> final(self).entry2(vaa) == n0 | 3u64)
            },
    {
        proof {
            use_type_invariant(&va);
        }
        let vaa = va.addr();
        let i4 = idx4(vaa);
        if !(vaa < SIDE_BASE_ADDRESS_L1) || i4 == 510 || i4 == 511 {
            return Err(MapError::ForbiddenRegion);
        }
        proof {
            old(self).lemma_mappable_path(vaa);
        }
        let i3 = idx3(vaa);
        let i2 = idx2(vaa);
        let i1 = idx1(vaa);
        let e4 = self.table_entry(self.root, i4);
        let f3: u64;
        if e4 & PTE_PRESENT == PTE_PRESENT {
            f3 = e4 & PFA_MASK;
        } else {
            if !allow_alloc {
                return Err(MapError::AllocatorFailed);
            }
            match self.install_child_table(self.root, i4, supply, Ghost(3int)) {
                Some(nf) => {
                    f3 = nf;
                    proof {
                        lemma_pte_zero();
                        lemma_pte_interior(nf);
                    }
                },
                None => {
                    return Err(MapError::AllocatorFailed);
                },
            }
        }
        let ghost sa = *self;
        let e3 = self.table_entry(f3, i3);
        if e3 & PTE_PRESENT == PTE_PRESENT && e3 & PTE_HUGE == PTE_HUGE {
            return Err(MapError::AlreadyMapped);
        }
        let f2: u64;
        if e3 & PTE_PRESENT == PTE_PRESENT {
            f2 = e3 & PFA_MASK;
        } else {
            if !allow_alloc {
                return Err(MapError::AllocatorFailed);
            }
            match self.install_child_table(f3, i3, supply, Ghost(2int)) {
                Some(nf) => {
                    f2 = nf;
                    proof {
                        lemma_pte_zero();
                        lemma_pte_interior(nf);
                    }
                },
                None => {
                    proof {
                        lemma_pte_zero();
                        lemma_pte_interior(f3);
                    }
                    return Err(MapError::AllocatorFailed);
                },
            }
        }
        let ghost sb = *self;
        let e2 = self.table_entry(f2, i2);
        if e2 & PTE_PRESENT == PTE_PRESENT && e2 & PTE_HUGE == PTE_HUGE {
            return Err(MapError::AlreadyMapped);
        }
        let f1: u64;
        if e2 & PTE_PRESENT == PTE_PRESENT {
            f1 = e2 & PFA_MASK;
        } else {
            if !allow_alloc {
                return Err(MapError::AllocatorFailed);
            }
            match self.install_child_table(f2, i2, supply, Ghost(1int)) {
                Some(nf) => {
                    f1 = nf;
                    proof {
                        lemma_pte_zero();
                        lemma_pte_interior(nf);
                    }
                },
                None => {
                    proof {
                        lemma_pte_zero();
                        lemma_pte_interior(f2);
                    }
                    return Err(MapError::AllocatorFailed);
                },
            }
        }
        let ghost sc = *self;
        let e1 = self.table_entry(f1, i1);
        if e1 & PTE_PRESENT == PTE_PRESENT {
            return Err(MapError::AlreadyMapped);
        }
        let leaf = hpf.pfa().addr() | (flags & FLAGS_MASK);
        self.set_table_entry(f1, i1, leaf);
        proof {
            let s0 = *old(self);
            let s3 = *self;
            let g = sc.sets();
            lemma_pte_zero();
            lemma_pte_leaf(hpf.pfa_spec().addr_spec(), flags);
            assert forall|f2: u64| #[trigger] g.roots.contains(f2) implies s3.table_ok(f2) by {
                assert(sc.table_ok(f2));
            }
            assert forall|f2: u64| #[trigger] g.l3s.contains(f2) implies s3.table_ok(f2) by {
                assert(sc.table_ok(f2));
            }
            assert forall|f2: u64| #[trigger] g.l2s.contains(f2) implies s3.table_ok(f2) by {
                assert(sc.table_ok(f2));
            }
            assert forall|f2: u64| #[trigger] g.l1s.contains(f2) implies s3.table_ok(f2) by {
                assert(sc.table_ok(f2));
            }
            assert forall|f2: u64, j: int|
                g.roots.contains(f2) && 0 <= j < 512 implies s3.root_entry_ok(
                #[trigger] s3.table(f2)[j],
            ) by {
                assert(sc.root_entry_ok(sc.table(f2)[j]));
            }
            assert forall|j: int| 0 <= j < 510 implies s3.root_entry_ok(
                #[trigger] s3.table(s3.root_spec())[j],
            ) by {
                assert(sc.root_entry_ok(sc.table(sc.root_spec())[j]));
            }
            assert forall|f2: u64, j: int|
                g.l3s.contains(f2) && 0 <= j < 512 implies Self::mid_entry_ok(
                #[trigger] s3.table(f2)[j],
                g.l2s,
                0x4000_0000u64,
            ) by {
                assert(Self::mid_entry_ok(sc.table(f2)[j], g.l2s, 0x4000_0000u64));
            }
            assert forall|f2: u64, j: int|
                g.l2s.contains(f2) && 0 <= j < 512 implies Self::mid_entry_ok(
                #[trigger] s3.table(f2)[j],
                g.l1s,
                0x20_0000u64,
            ) by {
                assert(Self::mid_entry_ok(sc.table(f2)[j], g.l1s, 0x20_0000u64));
            }
            assert(s3.wf());
            let vaa_ = va.addr_spec();
            let leaf_ = hpf.pfa_spec().addr_spec() | (flags & FLAGS_MASK);
            assert(s3.entry4(vaa_) == sc.entry4(vaa_));
            assert(s3.entry3(vaa_) == sc.entry3(vaa_));
            assert(s3.entry2(vaa_) == sc.entry2(vaa_));
            assert(s3.entry1(vaa_) == leaf_);
            lemma_index_bounds(vaa_);
            if !pte_present(s0.entry4(vaa_)) {
                assert(sa.entry4(vaa_) == f3 | 3u64);
                assert(sb.entry4(vaa_) == sa.entry4(vaa_));
                assert(sc.entry4(vaa_) == sb.entry4(vaa_));
            }
            if !pte_present(sa.entry3(vaa_)) {
                assert(sb.entry3(vaa_) == f2 | 3u64);
                assert(sc.entry3(vaa_) == sb.entry3(vaa_));
            }
            if !pte_present(sb.entry2(vaa_)) {
                assert(sc.entry2(vaa_) == f1 | 3u64);
            }
            assert forall|off: u64| off < 4096 implies {
                &&& #[trigger] s3.entry4((vaa_ + off) as u64) == s3.entry4(vaa_)
                &&& s3.entry3((vaa_ + off) as u64) == s3.entry3(vaa_)
                &&& s3.entry2((vaa_ + off) as u64) == s3.entry2(vaa_)
                &&& s3.entry1((vaa_ + off) as u64) == s3.entry1(vaa_)
                &&& ((vaa_ + off) as u64) & 0xFFFu64 == off
            } by {
                lemma_page_offset(vaa_, off);
            }
        }
        Ok(())
    }

    /// Maps a leaf node into the address space.  Requires that the
    /// intermediate paging structures for the mapping already exist.
    pub fn map_leaf(&mut self, hpf: crate::PF4K, va: crate::V4KA, r: bool, w: bool, x: bool) -> (res:
        Result<(), MapError>)
        requires
            old(self).wf(),
            frame_addr_ok(hpf.pfa_spec().addr_spec()),
        ensures
            final(self).wf(),
            final(self).root_spec() == old(self).root_spec(),
            final(self).sets() == old(self).sets(),
            forall|f2: u64| final(self).has_table(f2) <==> old(self).has_table(f2),
            res is Ok <==> (Self::mappable(va.addr_spec()) && !old(self).blocked(va.addr_spec())
                && old(self).missing_tables(va.addr_spec()) == 0),
            res == Err::<(), MapError>(MapError::ForbiddenRegion) <==> !Self::mappable(
                va.addr_spec(),
            ),
            res == Err::<(), MapError>(MapError::AlreadyMapped) <==> (Self::mappable(
                va.addr_spec(),
            ) && old(self).blocked(va.addr_spec())),
            res is Ok ==> {
                let vaa = va.addr_spec();
                let leaf = hpf.pfa_spec().addr_spec() | (page_perm_flags_spec(r, w, x)
                    & FLAGS_MASK);
                &&& final(self).entry1(vaa) == leaf
                &&& (forall|f2: u64|
                    f2 != old(self).l1_frame(vaa) ==> #[trigger] final(self).table(f2) == old(
                        self,
                    ).table(f2))
                &&& final(self).table(old(self).l1_frame(vaa)) == old(self).table(
                    old(self).l1_frame(vaa),
                ).update(l1_index(vaa), leaf)
                &&& (r ==> forall|off: u64|
                    off < 4096 ==> #[trigger] final(self).translate_spec((vaa + off) as u64)
                        == Some((hpf.pfa_spec().addr_spec() + off) as u64))
                &&& (!r ==> forall|off: u64|
                    off < 4096 ==> #[trigger] final(self).translate_spec((vaa + off) as u64)
                        is None)
            },
            !(res is Ok) ==> *final(self) == *old(self),
    {
        let flags = page_perm_flags(r, w, x);
        let mut dummy = FrameSupply::new(0, 0);
        proof {
            use_type_invariant(&va);
            lemma_perm_present(r, w, x);
            lemma_pte_leaf(hpf.pfa_spec().addr_spec(), flags);
            let x_ = va.addr_spec();
            assert(((x_ & 0x0000_FFFF_FFFF_FFFFu64) >> 12) & 0x1FF < 512) by (bit_vector);
        }
        self.map(hpf, flags, va, &mut dummy, false)
    }

    /// Unmaps `va` in this space, clearing only the leaf entry; interior
    /// tables are left intact.
    pub fn unmap(&mut self, va: crate::V4KA)
        requires
            old(self).wf(),
            Self::mappable(va.addr_spec()),
        ensures
            final(self).wf(),
            final(self).root_spec() == old(self).root_spec(),
            final(self).sets() == old(self).sets(),
            forall|f2: u64| final(self).has_table(f2) <==> old(self).has_table(f2),
            old(self).leaf_present(va.addr_spec()) ==> {
                let vaa = va.addr_spec();
                let f1 = old(self).l1_frame(vaa);
                &&& (forall|f2: u64|
                    f2 != f1 ==> #[trigger] final(self).table(f2) == old(self).table(f2))
                &&& final(self).table(f1) == old(self).table(f1).update(l1_index(vaa), 0u64)
            },
            !old(self).leaf_present(va.addr_spec()) ==> *final(self) == *old(self),
            !old(self).big_blocked(va.addr_spec()) ==> forall|off: u64|
                off < 4096 ==> #[trigger] final(self).translate_spec(
                    (va.addr_spec() + off) as u64,
                ) is None,
    {
        proof {
            use_type_invariant(&va);
            old(self).lemma_mappable_path(va.addr_spec());
            lemma_pte_zero();
        }
        let vaa = va.addr();
        let e4 = self.table_entry(self.root, idx4(vaa));
        if e4 & PTE_PRESENT != PTE_PRESENT {
            proof {
                self.lemma_translate_page_none(vaa);
            }
            return ;
        }
        let f3 = e4 & PFA_MASK;
        let e3 = self.table_entry(f3, idx3(vaa));
        if e3 & PTE_PRESENT != PTE_PRESENT || e3 & PTE_HUGE == PTE_HUGE {
            proof {
                if !(pte_present(e3) && pte_huge(e3)) {
                    self.lemma_translate_page_none(vaa);
                }
            }
            return ;
        }
        let f2 = e3 & PFA_MASK;
        let e2 = self.table_entry(f2, idx2(vaa));
        if e2 & PTE_PRESENT != PTE_PRESENT || e2 & PTE_HUGE == PTE_HUGE {
            proof {
                if !(pte_present(e2) && pte_huge(e2)) {
                    self.lemma_translate_page_none(vaa);
                }
            }
            return ;
        }
        let f1 = e2 & PFA_MASK;
        let e1 = self.table_entry(f1, idx1(vaa));
        if e1 & PTE_PRESENT != PTE_PRESENT {
            proof {
                self.lemma_translate_page_none(vaa);
            }
            return ;
        }
        self.set_table_entry(f1, idx1(vaa), 0);
        proof {
            let s0 = *old(self);
            let s3 = *self;
            let g = s0.sets();
            assert forall|f2_: u64| #[trigger] g.roots.contains(f2_) implies s3.table_ok(f2_) by {
                assert(s0.table_ok(f2_));
            }
            assert forall|f2_: u64| #[trigger] g.l3s.contains(f2_) implies s3.table_ok(f2_) by {
                assert(s0.table_ok(f2_));
            }
            assert forall|f2_: u64| #[trigger] g.l2s.contains(f2_) implies s3.table_ok(f2_) by {
                assert(s0.table_ok(f2_));
            }
            assert forall|f2_: u64| #[trigger] g.l1s.contains(f2_) implies s3.table_ok(f2_) by {
                assert(s0.table_ok(f2_));
            }
            assert forall|f2_: u64, j: int|
                g.roots.contains(f2_) && 0 <= j < 512 implies s3.root_entry_ok(
                #[trigger] s3.table(f2_)[j],
            ) by {
                assert(s0.root_entry_ok(s0.table(f2_)[j]));
            }
            assert forall|j: int| 0 <= j < 510 implies s3.root_entry_ok(
                #[trigger] s3.table(s3.root_spec())[j],
            ) by {
                assert(s0.root_entry_ok(s0.table(s0.root_spec())[j]));
            }
            assert forall|f2_: u64, j: int|
                g.l3s.contains(f2_) && 0 <= j < 512 implies Self::mid_entry_ok(
                #[trigger] s3.table(f2_)[j],
                g.l2s,
                0x4000_0000u64,
            ) by {
                assert(Self::mid_entry_ok(s0.table(f2_)[j], g.l2s, 0x4000_0000u64));
            }
            assert forall|f2_: u64, j: int|
                g.l2s.contains(f2_) && 0 <= j < 512 implies Self::mid_entry_ok(
                #[trigger] s3.table(f2_)[j],
                g.l1s,
                0x20_0000u64,
            ) by {
                assert(Self::mid_entry_ok(s0.table(f2_)[j], g.l1s, 0x20_0000u64));
            }
            assert(s3.wf());
            let vaa_ = va.addr_spec();
            assert forall|off: u64| off < 4096 implies #[trigger] s3.translate_spec(
                (vaa_ + off) as u64,
            ) is None by {
                lemma_page_offset(vaa_, off);
                assert(s3.entry4((vaa_ + off) as u64) == s3.entry4(vaa_));
                assert(s3.entry3((vaa_ + off) as u64) == s3.entry3(vaa_));
                assert(s3.entry2((vaa_ + off) as u64) == s3.entry2(vaa_));
                assert(s3.entry1((vaa_ + off) as u64) == s3.entry1(vaa_));
                assert(s3.entry1(vaa_) == 0);
            }
        }
    }

    /// Every translation within `va`'s page misses when the walk of `va`
    /// stops before a leaf.
    proof fn lemma_translate_page_none(self, va: u64)
        requires
            self.wf(),
            va % 4096 == 0,
            !self.big_blocked(va),
            !self.leaf_present(va),
        ensures
            forall|off: u64|
                off < 4096 ==> #[trigger] self.translate_spec((va + off) as u64) is None,
    {
        assert forall|off: u64| off < 4096 implies #[trigger] self.translate_spec(
            (va + off) as u64,
        ) is None by {
            lemma_page_offset(va, off);
            assert(self.entry4((va + off) as u64) == self.entry4(va));
            assert(self.entry3((va + off) as u64) == self.entry3(va));
            assert(self.entry2((va + off) as u64) == self.entry2(va));
            assert(self.entry1((va + off) as u64) == self.entry1(va));
        }
    }

    /// The side-load entry: slot 510 of the root table.
    pub open spec fn side_slot(self) -> u64 {
        self.table(self.root_spec())[510]
    }

    /// Allocates a zeroed frame from `supply` as the root of a foreign
    /// address space: a root that can later be side-loaded into slot 510
    /// and filled through the side windows.
    pub fn new_foreign_root(&mut self, supply: &mut FrameSupply) -> (r: Result<
        crate::PF4K,
        MapError,
    >)
        requires
            old(self).wf(),
            old(supply).wf(),
            old(self).supply_fresh(*old(supply)),
        ensures
            final(self).wf(),
            final(supply).wf(),
            final(supply).end_spec() == old(supply).end_spec(),
            old(supply).next_spec() <= final(supply).next_spec(),
            final(self).supply_fresh(*final(supply)),
            final(self).root_spec() == old(self).root_spec(),
            match r {
                Ok(pf) => {
                    let nf = pf.pfa_spec().addr_spec();
                    &&& nf == old(supply).next_spec()
                    &&& frame_addr_ok(nf)
                    &&& !old(self).has_table(nf)
                    &&& final(self).sets() == LevelSets {
                        l3s: old(self).sets().l3s,
                        l2s: old(self).sets().l2s,
                        l1s: old(self).sets().l1s,
                        roots: old(self).sets().roots.insert(nf),
                    }
                    &&& (forall|f2: u64|
                        final(self).has_table(f2) <==> old(self).has_table(f2) || f2 == nf)
                    &&& (forall|f2: u64|
                        f2 != nf ==> #[trigger] final(self).table(f2) == old(self).table(f2))
                    &&& final(self).table(nf).len() == 512
                    &&& (forall|j: int| 0 <= j < 512 ==> final(self).table(nf)[j] == 0)
                },
                Err(e) => {
                    &&& e == MapError::AllocatorFailed
                    &&& old(supply).avail() == 0
                    &&& *final(self) == *old(self)
                    &&& *final(supply) == *old(supply)
                },
            },
    {
        let pf = match supply.take() {
            Some(pf) => pf,
            None => {
                return Err(MapError::AllocatorFailed);
            },
        };
        let nf = pf.pfa().addr();
        proof {
            assert(!old(self).has_table(nf));
        }
        let row = Self::zero_row();
        self.tables.insert(nf, row);
        proof {
            let g0 = old(self).sets();
            self.levels@ = LevelSets {
                l3s: g0.l3s,
                l2s: g0.l2s,
                l1s: g0.l1s,
                roots: g0.roots.insert(nf),
            };
            lemma_pte_zero();
            let s0 = *old(self);
            let s2 = *self;
            let g2 = s2.sets();
            assert forall|f2: u64| #[trigger] g2.roots.contains(f2) implies s2.table_ok(f2) by {
                if f2 != nf {
                    assert(s0.table_ok(f2));
                }
            }
            assert forall|f2: u64| #[trigger] g2.l3s.contains(f2) implies s2.table_ok(f2) by {
                assert(s0.table_ok(f2));
            }
            assert forall|f2: u64| #[trigger] g2.l2s.contains(f2) implies s2.table_ok(f2) by {
                assert(s0.table_ok(f2));
            }
            assert forall|f2: u64| #[trigger] g2.l1s.contains(f2) implies s2.table_ok(f2) by {
                assert(s0.table_ok(f2));
            }
            assert forall|f2: u64, j: int|
                g2.roots.contains(f2) && 0 <= j < 512 implies s2.root_entry_ok(
                #[trigger] s2.table(f2)[j],
            ) by {
                if f2 != nf {
                    assert(s0.root_entry_ok(s0.table(f2)[j]));
                }
            }
            assert forall|j: int| 0 <= j < 510 implies s2.root_entry_ok(
                #[trigger] s2.table(s2.root_spec())[j],
            ) by {
                assert(s0.root_entry_ok(s0.table(s0.root_spec())[j]));
            }
            assert forall|f2: u64, j: int|
                g2.l3s.contains(f2) && 0 <= j < 512 implies Self::mid_entry_ok(
                #[trigger] s2.table(f2)[j],
                g2.l2s,
                0x4000_0000u64,
            ) by {
                assert(Self::mid_entry_ok(s0.table(f2)[j], g2.l2s, 0x4000_0000u64));
            }
            assert forall|f2: u64, j: int|
                g2.l2s.contains(f2) && 0 <= j < 512 implies Self::mid_entry_ok(
                #[trigger] s2.table(f2)[j],
                g2.l1s,
                0x20_0000u64,
            ) by {
                assert(Self::mid_entry_ok(s0.table(f2)[j], g2.l1s, 0x20_0000u64));
            }
            assert(s2.wf());
            assert forall|a: u64|
                supply.next_spec() <= a < supply.end_spec() implies !(#[trigger] s2.has_table(
                a,
            )) by {
                assert(!old(self).has_table(a));
            }
        }
        Ok(pf)
    }

    /// Maps the foreign root `pf` into the side-load slot of the current
    /// root, making the foreign space's tables reachable through the
    /// side windows.
    pub fn side_load(&mut self, pf: crate::PF4K) -> (r: Result<(), MapError>)
        requires
            old(self).wf(),
            old(self).sets().roots.contains(pf.pfa_spec().addr_spec()),
        ensures
            r is Ok,
            final(self).wf(),
            final(self).root_spec() == old(self).root_spec(),
            final(self).sets() == old(self).sets(),
            forall|f2: u64| final(self).has_table(f2) <==> old(self).has_table(f2),
            final(self).side_slot() == pf.pfa_spec().addr_spec() | 3u64,
            pte_pfa(final(self).side_slot()) == pf.pfa_spec().addr_spec(),
            final(self).table(final(self).root_spec()) == old(self).table(
                old(self).root_spec(),
            ).update(510, pf.pfa_spec().addr_spec() | 3u64),
            forall|f2: u64|
                f2 != old(self).root_spec() ==> #[trigger] final(self).table(f2) == old(
                    self,
                ).table(f2),
    {
        let fa = pf.pfa().addr();
        proof {
            lemma_pte_interior(fa);
        }
        self.set_table_entry(self.root, 510, fa | 3);
        proof {
            self.lemma_root_write_wf(*old(self), 510, fa | 3u64);
        }
        Ok(())
    }

    /// Clears the side-load slot and returns the foreign root that was
    /// loaded there.
    pub fn unload_side(&mut self) -> (r: Result<crate::PF4K, MapError>)
        requires
            old(self).wf(),
        ensures
            final(self).wf(),
            final(self).root_spec() == old(self).root_spec(),
            final(self).sets() == old(self).sets(),
            forall|f2: u64| final(self).has_table(f2) <==> old(self).has_table(f2),
            final(self).side_slot() == 0,
            match r {
                Ok(pf) => pf.pfa_spec().addr_spec() == pte_pfa(old(self).side_slot()),
                Err(_) => false,
            },
            final(self).table(final(self).root_spec()) == old(self).table(
                old(self).root_spec(),
            ).update(510, 0u64),
            forall|f2: u64|
                f2 != old(self).root_spec() ==> #[trigger] final(self).table(f2) == old(
                    self,
                ).table(f2),
    {
        let e = self.table_entry(self.root, 510);
        self.set_table_entry(self.root, 510, 0);
        proof {
            lemma_pte_zero();
            self.lemma_root_write_wf(*old(self), 510, 0u64);
        }
        Ok(crate::PF4K::new(crate::HPA::new(e & PFA_MASK)))
    }

    /// Writing slot 510 of the root with zero, or with a pointer to a
    /// foreign root, keeps the space well formed.
    proof fn lemma_root_write_wf(self, s0: AddressSpace, i: int, val: u64)
        requires
            s0.wf(),
            i == 510,
            val == 0 || (pte_present(val) && !pte_huge(val) && s0.sets().roots.contains(
                pte_pfa(val),
            )),
            self.root_spec() == s0.root_spec(),
            self.sets() == s0.sets(),
            forall|f2: u64| self.has_table(f2) <==> s0.has_table(f2),
            self.table(self.root_spec()) == s0.table(s0.root_spec()).update(i, val),
            forall|f2: u64|
                f2 != s0.root_spec() ==> #[trigger] self.table(f2) == s0.table(f2),
        ensures
            self.wf(),
    {
        let g = s0.sets();
        lemma_pte_zero();
        assert forall|f2: u64| #[trigger] g.roots.contains(f2) implies self.table_ok(f2) by {
            assert(s0.table_ok(f2));
        }
        assert forall|f2: u64| #[trigger] g.l3s.contains(f2) implies self.table_ok(f2) by {
            assert(s0.table_ok(f2));
        }
        assert forall|f2: u64| #[trigger] g.l2s.contains(f2) implies self.table_ok(f2) by {
            assert(s0.table_ok(f2));
        }
        assert forall|f2: u64| #[trigger] g.l1s.contains(f2) implies self.table_ok(f2) by {
            assert(s0.table_ok(f2));
        }
        assert forall|f2: u64, j: int|
            g.roots.contains(f2) && 0 <= j < 512 implies self.root_entry_ok(
            #[trigger] self.table(f2)[j],
        ) by {
            assert(s0.root_entry_ok(s0.table(f2)[j]));
        }
        assert forall|j: int| 0 <= j < 510 implies self.root_entry_ok(
            #[trigger] self.table(self.root_spec())[j],
        ) by {
            assert(s0.root_entry_ok(s0.table(s0.root_spec())[j]));
        }
        assert forall|f2: u64, j: int|
            g.l3s.contains(f2) && 0 <= j < 512 implies Self::mid_entry_ok(
            #[trigger] self.table(f2)[j],
            g.l2s,
            0x4000_0000u64,
        ) by {
            assert(Self::mid_entry_ok(s0.table(f2)[j], g.l2s, 0x4000_0000u64));
        }
        assert forall|f2: u64, j: int|
            g.l2s.contains(f2) && 0 <= j < 512 implies Self::mid_entry_ok(
            #[trigger] self.table(f2)[j],
            g.l1s,
            0x20_0000u64,
        ) by {
            assert(Self::mid_entry_ok(s0.table(f2)[j], g.l1s, 0x20_0000u64));
        }
    }

    /// One pass of range construction at the root level: ensures a
    /// present entry for every 512 GiB block meeting `[start, end)`.
    fn pass_level4(&mut self, start: u64, end: u64, supply: &mut FrameSupply) -> (r: Result<
        (),
        MapError,
    >)
        requires
            old(self).wf(),
            old(supply).wf(),
            old(self).supply_fresh(*old(supply)),
            end <= SIDE_BASE_ADDRESS_L1,
            forall|w: u64|
                #[trigger] in_span(w, start, end, 0x80_0000_0000u64) ==> Self::mappable(w),
        ensures
            final(self).wf(),
            final(supply).wf(),
            final(supply).end_spec() == old(supply).end_spec(),
            old(supply).next_spec() <= final(supply).next_spec(),
            final(self).supply_fresh(*final(supply)),
            final(self).root_spec() == old(self).root_spec(),
            old(self).sets().l3s.subset_of(final(self).sets().l3s),
            final(self).sets().l2s == old(self).sets().l2s,
            final(self).sets().l1s == old(self).sets().l1s,
            final(self).sets().roots == old(self).sets().roots,
            forall|f2: u64| old(self).has_table(f2) ==> final(self).has_table(f2),
            forall|f2: u64|
                old(self).has_table(f2) && f2 != old(self).root_spec()
                    ==> #[trigger] final(self).table(f2) == old(self).table(f2),
            forall|w: u64|
                pte_present(old(self).entry4(w)) ==> #[trigger] final(self).entry4(w) == old(
                    self,
                ).entry4(w),
            forall|w: u64|
                Self::mappable(w) ==> ((#[trigger] final(self).big_blocked(w)) ==> old(
                    self,
                ).big_blocked(w)),
            forall|w: u64|
                Self::mappable(w) ==> ((#[trigger] final(self).leaf_present(w)) ==> old(
                    self,
                ).leaf_present(w)),
            r is Ok ==> forall|w: u64|
                #[trigger] in_span(w, start, end, 0x80_0000_0000u64) ==> pte_present(
                    final(self).entry4(w),
                ) && pte_write(final(self).entry4(w)) && !pte_huge(final(self).entry4(w)),
            !(r is Ok) ==> r == Err::<(), MapError>(MapError::AllocatorFailed),
    {
        let s: u64 = 0x80_0000_0000;
        let lo = start - start % s;
        let mut va = lo;
        let ghost s0 = *old(self);
        let ghost sup0 = *old(supply);
        proof {
            vstd::arithmetic::div_mod::lemma_mod_bound(start as int, s as int);
            vstd::arithmetic::div_mod::lemma_mod_multiples_vanish(
                start as int / s as int,
                0,
                s as int,
            );
            vstd::arithmetic::div_mod::lemma_fundamental_div_mod(start as int, s as int);
        }
        while va < end
            invariant
                s0 == *old(self),
                sup0 == *old(supply),
                self.wf(),
                supply.wf(),
                self.supply_fresh(*supply),
                supply.end_spec() == sup0.end_spec(),
                sup0.next_spec() <= supply.next_spec(),
                self.root_spec() == s0.root_spec(),
                s0.sets().l3s.subset_of(self.sets().l3s),
                self.sets().l2s == s0.sets().l2s,
                self.sets().l1s == s0.sets().l1s,
                self.sets().roots == s0.sets().roots,
                forall|f2: u64| s0.has_table(f2) ==> self.has_table(f2),
                forall|f2: u64|
                    s0.has_table(f2) && f2 != s0.root_spec() ==> #[trigger] self.table(f2)
                        == s0.table(f2),
                forall|w: u64|
                    pte_present(s0.entry4(w)) ==> #[trigger] self.entry4(w) == s0.entry4(w),
                forall|w: u64|
                    Self::mappable(w) ==> ((#[trigger] self.big_blocked(w)) ==> s0.big_blocked(
                        w,
                    )),
                forall|w: u64|
                    Self::mappable(w) ==> ((#[trigger] self.leaf_present(w)) ==> s0.leaf_present(
                        w,
                    )),
                forall|w: u64|
                    #[trigger] in_span(w, start, end, 0x80_0000_0000u64) ==> Self::mappable(w),
                forall|w: u64|
                    in_span(w, start, end, 0x80_0000_0000u64) && w - w % 0x80_0000_0000u64 < va
                        ==> pte_present(#[trigger] self.entry4(w)) && pte_write(self.entry4(w))
                        && !pte_huge(self.entry4(w)),
                end <= SIDE_BASE_ADDRESS_L1,
                va % s == 0,
                lo <= va,
                lo == start - start % s,
                s == 0x80_0000_0000u64,
            decreases end + s - va,
        {
            proof {
                vstd::arithmetic::div_mod::lemma_mod_bound(va as int, s as int);
                vstd::arithmetic::div_mod::lemma_small_mod(0nat, s as nat);
                assert(va % s == 0 ==> va - va % s == va);
                assert(in_span(va, start, end, s));
            }
            let i4 = idx4(va);
            let e4 = self.table_entry(self.root, i4);
            let ghost sc = *self;
            let ghost installed: bool = !(pte_present(e4));
            if e4 & PTE_PRESENT != PTE_PRESENT {
                match self.install_child_table(self.root, i4, supply, Ghost(3int)) {
                    Some(nf) => {
                        proof {
                            lemma_pte_zero();
                            lemma_pte_interior(nf);
                        }
                    },
                    None => {
                        return Err(MapError::AllocatorFailed);
                    },
                }
            }
            proof {
                let sn = *self;
                lemma_index_bounds(va);
                assert(pte_present(sn.entry4(va)) && pte_write(sn.entry4(va)) && !pte_huge(
                    sn.entry4(va),
                ));
                assert forall|w: u64| pte_present(s0.entry4(w)) implies #[trigger] sn.entry4(w)
                    == s0.entry4(w) by {
                    lemma_index_bounds(w);
                    lemma_index_bounds(va);
                    assert(sc.entry4(w) == s0.entry4(w));
                    if installed && l4_index(w) == l4_index(va) {
                        assert(sc.entry4(va) == sc.entry4(w));
                        assert(false);
                    }
                }
                // coverage: the whole block of va now has a present entry
                assert forall|w: u64|
                    in_span(w, start, end, s) && w - w % s < va + s implies pte_present(
                    #[trigger] sn.entry4(w),
                ) && pte_write(sn.entry4(w)) && !pte_huge(sn.entry4(w)) by {
                    lemma_index_bounds(w);
                    lemma_index_bounds(va);
                    vstd::arithmetic::div_mod::lemma_mod_bound(w as int, s as int);
                    if w - w % s < va {
                        // processed earlier; a present entry is never overwritten
                        assert(pte_present(sc.entry4(w)) && pte_write(sc.entry4(w)) && !pte_huge(
                            sc.entry4(w),
                        ));
                        if installed && l4_index(w) == l4_index(va) {
                            assert(sc.entry4(w) == sc.entry4(va));
                            assert(false);
                        }
                        assert(sn.entry4(w) == sc.entry4(w));
                    } else {
                        // w lies in va's block
                        let off = (w - va) as u64;
                        lemma_block_offset_512(va, off);
                        assert(w == va + off);
                        assert(sn.entry4(w) == sn.entry4(va));
                    }
                }
                // monotonicity of big_blocked across this step
                assert forall|w: u64|
                    Self::mappable(w) && #[trigger] sn.big_blocked(w) implies s0.big_blocked(
                    w,
                ) by {
                    lemma_index_bounds(w);
                    lemma_index_bounds(va);
                    if installed && l4_index(w) == l4_index(va) {
                        let nf2 = pte_pfa(sn.entry4(w));
                        assert(sn.entry4(w) == sn.entry4(va));
                        assert(forall|j: int| 0 <= j < 512 ==> sn.table(nf2)[j] == 0);
                        assert(!pte_present(sn.entry3(w)));
                        assert(false);
                    } else {
                        assert(sn.entry4(w) == sc.entry4(w));
                        if pte_present(sc.entry4(w)) {
                            sc.lemma_mappable_path(w);
                            assert(sn.entry3(w) == sc.entry3(w));
                            if pte_present(sc.entry3(w)) && !pte_huge(sc.entry3(w)) {
                                sc.lemma_mappable_path(w);
                                assert(sn.entry2(w) == sc.entry2(w));
                            }
                        }
                        assert(sc.big_blocked(w));
                    }
                }
                assert forall|w: u64|
                    Self::mappable(w) && #[trigger] sn.leaf_present(w) implies sc.leaf_present(
                    w,
                ) by {
                    lemma_index_bounds(w);
                    lemma_index_bounds(va);
                    if installed && l4_index(w) == l4_index(va) {
                        assert(sn.entry4(w) == sn.entry4(va));
                        assert(!pte_present(sn.entry3(w)));
                        assert(false);
                    } else {
                        assert(sn.entry4(w) == sc.entry4(w));
                        if pte_present(sc.entry4(w)) {
                            sc.lemma_mappable_path(w);
                            assert(sn.entry3(w) == sc.entry3(w));
                            if pte_present(sc.entry3(w)) && !pte_huge(sc.entry3(w)) {
                                assert(sn.entry2(w) == sc.entry2(w));
                                if pte_present(sc.entry2(w)) && !pte_huge(sc.entry2(w)) {
                                    assert(sn.entry1(w) == sc.entry1(w));
                                }
                            }
                        }
                    }
                }
            }
            va = va + s;
        }
        Ok(())
    }

    /// One pass of range construction at level 3: ensures a present
    /// entry for every 1 GiB block meeting `[start, end)`, walking
    /// through the already-present entries above.
    fn pass_level3(&mut self, start: u64, end: u64, supply: &mut FrameSupply) -> (r: Result<
        (),
        MapError,
    >)
        requires
            old(self).wf(),
            old(supply).wf(),
            old(self).supply_fresh(*old(supply)),
            end <= SIDE_BASE_ADDRESS_L1,
            forall|w: u64|
                #[trigger] in_span(w, start, end, 0x4000_0000u64) ==> Self::mappable(w)
                    && pte_present(old(self).entry4(w))  && !old(self).big_blocked(w),
        ensures
            final(self).wf(),
            final(supply).wf(),
            final(supply).end_spec() == old(supply).end_spec(),
            old(supply).next_spec() <= final(supply).next_spec(),
            final(self).supply_fresh(*final(supply)),
            final(self).root_spec() == old(self).root_spec(),
            old(self).sets().l2s.subset_of(final(self).sets().l2s),
            final(self).sets().l3s == old(self).sets().l3s,
            final(self).sets().l1s == old(self).sets().l1s,
            final(self).sets().roots == old(self).sets().roots,
            forall|f2: u64| old(self).has_table(f2) ==> final(self).has_table(f2),
            forall|f2: u64|
                old(self).has_table(f2) && !old(self).sets().l3s.contains(f2)
                    ==> #[trigger] final(self).table(f2) == old(self).table(f2),
            forall|w: u64| #[trigger] final(self).entry4(w) == old(self).entry4(w),
                        forall|w: u64|
                Self::mappable(w) && pte_present(old(self).entry4(w)) && pte_present(
                    old(self).entry3(w),
                ) ==> #[trigger] final(self).entry3(w) == old(self).entry3(w),
            forall|w: u64|
                Self::mappable(w) ==> ((#[trigger] final(self).big_blocked(w)) ==> old(
                    self,
                ).big_blocked(w)),
            forall|w: u64|
                Self::mappable(w) ==> ((#[trigger] final(self).leaf_present(w)) ==> old(
                    self,
                ).leaf_present(w)),
            r is Ok ==> forall|w: u64|
                #[trigger] in_span(w, start, end, 0x4000_0000u64) ==> pte_present(
                    final(self).entry3(w),
                ) && pte_write(final(self).entry3(w)) && !pte_huge(final(self).entry3(w)),
            !(r is Ok) ==> r == Err::<(), MapError>(MapError::AllocatorFailed),
    {
        let s: u64 = 0x4000_0000;
        let lo = start - start % s;
        let mut va = lo;
        let ghost s0 = *old(self);
        let ghost sup0 = *old(supply);
        while va < end
            invariant
                s0 == *old(self),
                sup0 == *old(supply),
                self.wf(),
                supply.wf(),
                self.supply_fresh(*supply),
                supply.end_spec() == sup0.end_spec(),
                sup0.next_spec() <= supply.next_spec(),
                self.root_spec() == s0.root_spec(),
                s0.sets().l2s.subset_of(self.sets().l2s),
                self.sets().l3s == s0.sets().l3s,
                self.sets().l1s == s0.sets().l1s,
                self.sets().roots == s0.sets().roots,
                forall|f2: u64| s0.has_table(f2) ==> self.has_table(f2),
                forall|f2: u64|
                    s0.has_table(f2) && !s0.sets().l3s.contains(f2) ==> #[trigger] self.table(
                        f2,
                    ) == s0.table(f2),
                forall|w: u64| #[trigger] self.entry4(w) == s0.entry4(w),
                                s0.wf(),
                forall|w: u64|
                    Self::mappable(w) && pte_present(s0.entry4(w)) && pte_present(s0.entry3(w))
                        ==> #[trigger] self.entry3(w) == s0.entry3(w),
                forall|w: u64|
                    Self::mappable(w) && pte_present(s0.entry4(w)) && pte_present(
                        #[trigger] self.entry3(w),
                    ) ==> ((pte_present(s0.entry3(w)) && self.entry3(w) == s0.entry3(w)) || (
                    pte_write(self.entry3(w)) && !pte_huge(self.entry3(w)))),
                forall|w: u64|
                    Self::mappable(w) ==> ((#[trigger] self.big_blocked(w)) ==> s0.big_blocked(
                        w,
                    )),
                forall|w: u64|
                    Self::mappable(w) ==> ((#[trigger] self.leaf_present(w)) ==> s0.leaf_present(
                        w,
                    )),
                forall|w: u64|
                    #[trigger] in_span(w, start, end, 0x4000_0000u64) ==> Self::mappable(w)
                        && pte_present(s0.entry4(w))  && !s0.big_blocked(w),
                forall|w: u64|
                    in_span(w, start, end, 0x4000_0000u64) && w - w % 0x4000_0000u64 < va ==> pte_present(
                        #[trigger] self.entry3(w),
                    ) && pte_write(self.entry3(w)) && !pte_huge(self.entry3(w)),
                end <= SIDE_BASE_ADDRESS_L1,
                va % s == 0,
                lo <= va,
                lo == start - start % s,
                s == 0x4000_0000u64,
            decreases end + s - va,
        {
            proof {
                vstd::arithmetic::div_mod::lemma_mod_bound(va as int, s as int);
                vstd::arithmetic::div_mod::lemma_small_mod(0nat, s as nat);
                assert(in_span(va, start, end, s));
                lemma_index_bounds(va);
                self.lemma_mappable_path(va);
            }
            let e4 = self.table_entry(self.root, idx4(va));
            let f3 = e4 & PFA_MASK;
            let eL = self.table_entry(f3, idx3(va));
            let ghost sc = *self;
            let ghost installed: bool = !(pte_present(eL));
            if eL & PTE_PRESENT != PTE_PRESENT {
                match self.install_child_table(f3, idx3(va), supply, Ghost(2int)) {
                    Some(nf) => {
                        proof {
                            lemma_pte_zero();
                            lemma_pte_interior(nf);
                        }
                    },
                    None => {
                        return Err(MapError::AllocatorFailed);
                    },
                }
            }
            proof {
                let sn = *self;
                assert(sn.entry4(va) == sc.entry4(va));
                assert forall|w: u64| #[trigger] sn.entry4(w) == sc.entry4(w) by {
                    lemma_index_bounds(w);
                }
                assert forall|w: u64|
                    Self::mappable(w) && pte_present(s0.entry4(w)) && pte_present(
                        #[trigger] sn.entry3(w),
                    ) implies ((pte_present(s0.entry3(w)) && sn.entry3(w) == s0.entry3(w)) || (
                pte_write(sn.entry3(w)) && !pte_huge(sn.entry3(w)))) by {
                    lemma_index_bounds(w);
                    lemma_index_bounds(va);
                    sc.lemma_mappable_path(w);
                    if !(installed && sc.l3_frame(w) == f3 && l3_index(w) == l3_index(va)) {
                        assert(sn.entry3(w) == sc.entry3(w));
                    }
                }
                if !installed {
                    assert(pte_present(sc.entry3(va)));
                    s0.lemma_mappable_path(va);
                    if pte_present(s0.entry3(va)) && sc.entry3(va) == s0.entry3(va) {
                        assert(!pte_huge(s0.entry3(va)));
                        assert(pte_write(s0.entry3(va)));
                    }
                }
                assert(pte_present(sn.entry3(va)) && pte_write(sn.entry3(va)) && !pte_huge(
                    sn.entry3(va),
                ));
                                assert forall|w: u64|
                    Self::mappable(w) && pte_present(sc.entry4(w)) && pte_present(sc.entry3(w))
                        implies #[trigger] sn.entry3(w) == sc.entry3(w) by {
                    lemma_index_bounds(w);
                    sc.lemma_mappable_path(w);
                    if installed && sc.l3_frame(w) == f3 && l3_index(w) == l3_index(
                        va,
                    ) {
                        assert(sc.entry3(w) == sc.entry3(va));
                        assert(false);
                    }
                }
                assert forall|w: u64|
                    in_span(w, start, end, s) && w - w % s < va + s implies pte_present(
                    #[trigger] sn.entry3(w),
                ) && pte_write(sn.entry3(w)) && !pte_huge(sn.entry3(w)) by {
                    lemma_index_bounds(w);
                    lemma_index_bounds(va);
                    vstd::arithmetic::div_mod::lemma_mod_bound(w as int, s as int);
                    if w - w % s < va {
                        assert(pte_present(sc.entry3(w)) && pte_write(sc.entry3(w))
                            && !pte_huge(sc.entry3(w)));
                        sc.lemma_mappable_path(w);
                        if installed && sc.l3_frame(w) == f3 && l3_index(w)
                            == l3_index(va) {
                            assert(sc.entry3(w) == sc.entry3(va));
                            assert(false);
                        }
                        assert(sn.entry3(w) == sc.entry3(w));
                    } else {
                        let off = (w - va) as u64;
                        lemma_block_offset_1g(va, off);
                        assert(w == va + off);
                        assert(sn.entry3(w) == sn.entry3(va));
                    }
                }
                assert forall|w: u64|
                    Self::mappable(w) && #[trigger] sn.big_blocked(w) implies s0.big_blocked(
                    w,
                ) by {
                    lemma_index_bounds(w);
                    lemma_index_bounds(va);
                    if pte_present(sc.entry4(w)) {
                        sc.lemma_mappable_path(w);
                        assert(sn.entry3(w) == sc.entry3(w) || (installed && sc.l3_frame(w) == f3
                            && l3_index(w) == l3_index(va)));
                        if installed && sc.l3_frame(w) == f3 && l3_index(w) == l3_index(va) {
                            assert(!pte_present(sn.entry2(w)));
                            assert(false);
                        }
                        if pte_present(sc.entry3(w)) && !pte_huge(sc.entry3(w)) {
                            assert(sn.entry2(w) == sc.entry2(w));
                        }
                    }
                    assert(sc.big_blocked(w));
                }
                assert forall|w: u64|
                    Self::mappable(w) && #[trigger] sn.leaf_present(w) implies sc.leaf_present(
                    w,
                ) by {
                    lemma_index_bounds(w);
                    lemma_index_bounds(va);
                    assert(sn.entry4(w) == sc.entry4(w));
                    if pte_present(sc.entry4(w)) {
                        sc.lemma_mappable_path(w);
                        if installed && sc.l3_frame(w) == f3 && l3_index(w) == l3_index(va) {
                            assert(sn.entry3(w) == sn.entry3(va));
                            assert(!pte_present(sn.entry2(w)));
                            assert(false);
                        } else {
                            assert(sn.entry3(w) == sc.entry3(w));
                            if pte_present(sc.entry3(w)) && !pte_huge(sc.entry3(w)) {
                                assert(sn.entry2(w) == sc.entry2(w));
                                if pte_present(sc.entry2(w)) && !pte_huge(sc.entry2(w)) {
                                    assert(sn.entry1(w) == sc.entry1(w));
                                }
                            }
                        }
                    }
                }
            }
            va = va + s;
        }
        Ok(())
    }

    /// One pass of range construction at level 2: ensures a present
    /// entry for every 2 MiB block meeting `[start, end)`, walking
    /// through the already-present entries above.
    fn pass_level2(&mut self, start: u64, end: u64, supply: &mut FrameSupply) -> (r: Result<
        (),
        MapError,
    >)
        requires
            old(self).wf(),
            old(supply).wf(),
            old(self).supply_fresh(*old(supply)),
            end <= SIDE_BASE_ADDRESS_L1,
            forall|w: u64|
                #[trigger] in_span(w, start, end, 0x20_0000u64) ==> Self::mappable(w)
                    && pte_present(old(self).entry4(w)) && pte_present(
                    old(self).entry3(w),
                ) && !pte_huge(old(self).entry3(w)) && !old(self).big_blocked(w),
        ensures
            final(self).wf(),
            final(supply).wf(),
            final(supply).end_spec() == old(supply).end_spec(),
            old(supply).next_spec() <= final(supply).next_spec(),
            final(self).supply_fresh(*final(supply)),
            final(self).root_spec() == old(self).root_spec(),
            old(self).sets().l1s.subset_of(final(self).sets().l1s),
            final(self).sets().l3s == old(self).sets().l3s,
            final(self).sets().l2s == old(self).sets().l2s,
            final(self).sets().roots == old(self).sets().roots,
            forall|f2: u64| old(self).has_table(f2) ==> final(self).has_table(f2),
            forall|f2: u64|
                old(self).has_table(f2) && !old(self).sets().l2s.contains(f2)
                    ==> #[trigger] final(self).table(f2) == old(self).table(f2),
            forall|w: u64| #[trigger] final(self).entry4(w) == old(self).entry4(w),
            forall|w: u64|
                pte_present(old(self).entry4(w)) ==> #[trigger] final(self).entry3(w) == old(
                    self,
                ).entry3(w),
            forall|w: u64|
                Self::mappable(w) && pte_present(old(self).entry4(w)) && pte_present(
                    old(self).entry3(w),
                ) && !pte_huge(old(self).entry3(w)) && pte_present(old(self).entry2(w))
                    ==> #[trigger] final(self).entry2(w) == old(self).entry2(w),
            forall|w: u64|
                Self::mappable(w) ==> ((#[trigger] final(self).big_blocked(w)) ==> old(
                    self,
                ).big_blocked(w)),
            forall|w: u64|
                Self::mappable(w) ==> ((#[trigger] final(self).leaf_present(w)) ==> old(
                    self,
                ).leaf_present(w)),
            r is Ok ==> forall|w: u64|
                #[trigger] in_span(w, start, end, 0x20_0000u64) ==> pte_present(
                    final(self).entry2(w),
                ) && pte_write(final(self).entry2(w)) && !pte_huge(final(self).entry2(w)),
            !(r is Ok) ==> r == Err::<(), MapError>(MapError::AllocatorFailed),
    {
        let s: u64 = 0x20_0000;
        let lo = start - start % s;
        let mut va = lo;
        let ghost s0 = *old(self);
        let ghost sup0 = *old(supply);
        while va < end
            invariant
                s0 == *old(self),
                sup0 == *old(supply),
                self.wf(),
                supply.wf(),
                self.supply_fresh(*supply),
                supply.end_spec() == sup0.end_spec(),
                sup0.next_spec() <= supply.next_spec(),
                self.root_spec() == s0.root_spec(),
                s0.sets().l1s.subset_of(self.sets().l1s),
                self.sets().l3s == s0.sets().l3s,
                self.sets().l2s == s0.sets().l2s,
                self.sets().roots == s0.sets().roots,
                forall|f2: u64| s0.has_table(f2) ==> self.has_table(f2),
                forall|f2: u64|
                    s0.has_table(f2) && !s0.sets().l2s.contains(f2) ==> #[trigger] self.table(
                        f2,
                    ) == s0.table(f2),
                forall|w: u64| #[trigger] self.entry4(w) == s0.entry4(w),
                forall|w: u64|
                    pte_present(s0.entry4(w)) ==> #[trigger] self.entry3(w) == s0.entry3(w),
                s0.wf(),
                forall|w: u64|
                    Self::mappable(w) && pte_present(s0.entry4(w)) && pte_present(s0.entry3(w))
                        && !pte_huge(s0.entry3(w)) && pte_present(s0.entry2(w))
                        ==> #[trigger] self.entry2(w) == s0.entry2(w),
                forall|w: u64|
                    Self::mappable(w) && pte_present(s0.entry4(w)) && pte_present(s0.entry3(w))
                        && !pte_huge(s0.entry3(w)) && pte_present(#[trigger] self.entry2(w))
                        ==> ((pte_present(s0.entry2(w)) && self.entry2(w) == s0.entry2(w)) || (
                    pte_write(self.entry2(w)) && !pte_huge(self.entry2(w)))),
                forall|w: u64|
                    Self::mappable(w) ==> ((#[trigger] self.big_blocked(w)) ==> s0.big_blocked(
                        w,
                    )),
                forall|w: u64|
                    Self::mappable(w) ==> ((#[trigger] self.leaf_present(w)) ==> s0.leaf_present(
                        w,
                    )),
                forall|w: u64|
                    #[trigger] in_span(w, start, end, 0x20_0000u64) ==> Self::mappable(w)
                        && pte_present(s0.entry4(w)) && pte_present(s0.entry3(w))
                        && !pte_huge(s0.entry3(w)) && !s0.big_blocked(w),
                forall|w: u64|
                    in_span(w, start, end, 0x20_0000u64) && w - w % 0x20_0000u64 < va ==> pte_present(
                        #[trigger] self.entry2(w),
                    ) && pte_write(self.entry2(w)) && !pte_huge(self.entry2(w)),
                end <= SIDE_BASE_ADDRESS_L1,
                va % s == 0,
                lo <= va,
                lo == start - start % s,
                s == 0x20_0000u64,
            decreases end + s - va,
        {
            proof {
                vstd::arithmetic::div_mod::lemma_mod_bound(va as int, s as int);
                vstd::arithmetic::div_mod::lemma_small_mod(0nat, s as nat);
                assert(in_span(va, start, end, s));
                lemma_index_bounds(va);
                self.lemma_mappable_path(va);
            }
            let e4 = self.table_entry(self.root, idx4(va));
            let f3 = e4 & PFA_MASK;
            let e3 = self.table_entry(f3, idx3(va));
            let f2 = e3 & PFA_MASK;
            let eL = self.table_entry(f2, idx2(va));
            let ghost sc = *self;
            let ghost installed: bool = !(pte_present(eL));
            if eL & PTE_PRESENT != PTE_PRESENT {
                match self.install_child_table(f2, idx2(va), supply, Ghost(1int)) {
                    Some(nf) => {
                        proof {
                            lemma_pte_zero();
                            lemma_pte_interior(nf);
                        }
                    },
                    None => {
                        return Err(MapError::AllocatorFailed);
                    },
                }
            }
            proof {
                let sn = *self;
                assert(sn.entry4(va) == sc.entry4(va));
                assert(sn.entry3(va) == sc.entry3(va));
                assert forall|w: u64| #[trigger] sn.entry4(w) == sc.entry4(w) by {
                    lemma_index_bounds(w);
                }
                assert forall|w: u64| pte_present(sc.entry4(w)) implies #[trigger] sn.entry3(w)
                    == sc.entry3(w) by {
                    lemma_index_bounds(w);
                    sc.lemma_l4_step(w);
                }
                assert forall|w: u64|
                    Self::mappable(w) && pte_present(s0.entry4(w)) && pte_present(s0.entry3(w))
                        && !pte_huge(s0.entry3(w)) && pte_present(#[trigger] sn.entry2(w))
                        implies ((pte_present(s0.entry2(w)) && sn.entry2(w) == s0.entry2(w)) || (
                pte_write(sn.entry2(w)) && !pte_huge(sn.entry2(w)))) by {
                    lemma_index_bounds(w);
                    lemma_index_bounds(va);
                    sc.lemma_mappable_path(w);
                    if !(installed && sc.l2_frame(w) == f2 && l2_index(w) == l2_index(va)) {
                        assert(sn.entry2(w) == sc.entry2(w));
                    }
                }
                if !installed {
                    assert(pte_present(sc.entry2(va)));
                    s0.lemma_mappable_path(va);
                    if pte_present(s0.entry2(va)) && sc.entry2(va) == s0.entry2(va) {
                        assert(!pte_huge(s0.entry2(va)));
                        assert(pte_write(s0.entry2(va)));
                    }
                }
                assert(pte_present(sn.entry2(va)) && pte_write(sn.entry2(va)) && !pte_huge(
                    sn.entry2(va),
                ));
                assert forall|w: u64|
                    Self::mappable(w) && pte_present(sc.entry4(w)) && pte_present(sc.entry3(w))
                        && !pte_huge(sc.entry3(w)) && pte_present(sc.entry2(w))
                        implies #[trigger] sn.entry2(w) == sc.entry2(w) by {
                    lemma_index_bounds(w);
                    lemma_index_bounds(va);
                    sc.lemma_mappable_path(w);
                    if installed && sc.l2_frame(w) == f2 && l2_index(w) == l2_index(
                        va,
                    ) {
                        assert(sc.l2_frame(va) == f2);
                        assert(sc.entry2(w) == sc.entry2(va));
                        assert(false);
                    }
                }
                assert forall|w: u64|
                    in_span(w, start, end, s) && w - w % s < va + s implies pte_present(
                    #[trigger] sn.entry2(w),
                ) && pte_write(sn.entry2(w)) && !pte_huge(sn.entry2(w)) by {
                    lemma_index_bounds(w);
                    lemma_index_bounds(va);
                    vstd::arithmetic::div_mod::lemma_mod_bound(w as int, s as int);
                    if w - w % s < va {
                        assert(pte_present(sc.entry2(w)) && pte_write(sc.entry2(w))
                            && !pte_huge(sc.entry2(w)));
                        sc.lemma_mappable_path(w);
                        if installed && sc.l2_frame(w) == f2 && l2_index(w)
                            == l2_index(va) {
                            assert(sc.entry2(w) == sc.entry2(va));
                            assert(false);
                        }
                        assert(sn.entry2(w) == sc.entry2(w));
                    } else {
                        let off = (w - va) as u64;
                        lemma_block_offset_2m(va, off);
                        assert(w == va + off);
                        assert(sn.entry2(w) == sn.entry2(va));
                    }
                }
                assert forall|w: u64|
                    Self::mappable(w) && #[trigger] sn.big_blocked(w) implies s0.big_blocked(
                    w,
                ) by {
                    lemma_index_bounds(w);
                    lemma_index_bounds(va);
                    if pte_present(sc.entry4(w)) {
                        sc.lemma_mappable_path(w);
                        assert(sn.entry3(w) == sc.entry3(w));
                        if pte_present(sc.entry3(w)) && !pte_huge(sc.entry3(w)) {
                            assert(sn.entry2(w) == sc.entry2(w) || (installed && sc.l2_frame(w)
                                == f2 && l2_index(w) == l2_index(va)));
                            if installed && sc.l2_frame(w) == f2 && l2_index(w) == l2_index(va) {
                                assert(!pte_huge(sn.entry2(w)));
                            }
                        }
                    }
                    assert(sc.big_blocked(w));
                }
                assert forall|w: u64|
                    Self::mappable(w) && #[trigger] sn.leaf_present(w) implies sc.leaf_present(
                    w,
                ) by {
                    lemma_index_bounds(w);
                    lemma_index_bounds(va);
                    assert(sn.entry4(w) == sc.entry4(w));
                    if pte_present(sc.entry4(w)) {
                        sc.lemma_mappable_path(w);
                        assert(sn.entry3(w) == sc.entry3(w));
                        if pte_present(sc.entry3(w)) && !pte_huge(sc.entry3(w)) {
                            if installed && sc.l2_frame(w) == f2 && l2_index(w) == l2_index(va) {
                                assert(sn.entry2(w) == sn.entry2(va));
                                assert(!pte_present(sn.entry1(w)));
                                assert(false);
                            } else {
                                assert(sn.entry2(w) == sc.entry2(w));
                                if pte_present(sc.entry2(w)) && !pte_huge(sc.entry2(w)) {
                                    assert(sn.entry1(w) == sc.entry1(w));
                                }
                            }
                        }
                    }
                }
            }
            va = va + s;
        }
        Ok(())
    }

    /// Creates paging structures corresponding to the given ranges of
    /// addresses in the current address space.
    ///
    /// Only the interior levels are built: afterwards every address of
    /// every range walks through present, writable entries down to the
    /// leaf table, whose entries are untouched.  The supply must provide
    /// zeroed frames for any tables that are missing.
    pub fn make_ranges(&mut self, ranges: &Vec<VRange>, supply: &mut FrameSupply) -> (r: Result<
        (),
        MapError,
    >)
        requires
            old(self).wf(),
            old(supply).wf(),
            old(self).supply_fresh(*old(supply)),
            forall|k: int|
                0 <= k < ranges@.len() ==> ranges@[k].end.addr_spec() <= SIDE_BASE_ADDRESS_L1,
            forall|k: int, w: u64|
                0 <= k < ranges@.len() && in_span(
                    w,
                    ranges@[k].start.addr_spec(),
                    ranges@[k].end.addr_spec(),
                    0x80_0000_0000u64,
                ) ==> Self::mappable(w) && !old(self).big_blocked(w),
        ensures
            final(self).wf(),
            final(supply).wf(),
            final(supply).end_spec() == old(supply).end_spec(),
            old(supply).next_spec() <= final(supply).next_spec(),
            final(self).supply_fresh(*final(supply)),
            final(self).root_spec() == old(self).root_spec(),
            final(self).sets().roots == old(self).sets().roots,
            forall|f2: u64| old(self).has_table(f2) ==> final(self).has_table(f2),
            forall|w: u64|
                Self::mappable(w) ==> ((#[trigger] final(self).big_blocked(w)) ==> old(
                    self,
                ).big_blocked(w)),
            forall|w: u64|
                Self::mappable(w) ==> ((#[trigger] final(self).leaf_present(w)) ==> old(
                    self,
                ).leaf_present(w)),
            r is Ok ==> forall|k: int, w: u64|
                0 <= k < ranges@.len() && ranges@[k].start.addr_spec() <= w < ranges@[k].end.addr_spec()
                    ==> (#[trigger] in_span(
                    w,
                    ranges@[k].start.addr_spec(),
                    ranges@[k].end.addr_spec(),
                    0x20_0000u64,
                ) && final(self).missing_tables(w) == 0 && !final(self).big_blocked(w)
                    && pte_write(final(self).entry4(w)) && pte_write(final(self).entry3(w))
                    && pte_write(final(self).entry2(w))),
            !(r is Ok) ==> r == Err::<(), MapError>(MapError::AllocatorFailed),
    {
        let ghost s0 = *old(self);
        let ghost sup0 = *old(supply);
        let n = ranges.len();
        let mut k: usize = 0;
        while k < n
            invariant
                s0 == *old(self),
                sup0 == *old(supply),
                s0.wf(),
                n == ranges@.len(),
                k <= n,
                self.wf(),
                supply.wf(),
                self.supply_fresh(*supply),
                supply.end_spec() == sup0.end_spec(),
                sup0.next_spec() <= supply.next_spec(),
                self.root_spec() == s0.root_spec(),
                self.sets().l2s == s0.sets().l2s,
                self.sets().l1s == s0.sets().l1s,
                self.sets().roots == s0.sets().roots,
                forall|f2: u64| s0.has_table(f2) ==> self.has_table(f2),
                forall|k2: int|
                    0 <= k2 < ranges@.len() ==> ranges@[k2].end.addr_spec()
                        <= SIDE_BASE_ADDRESS_L1,
                forall|k2: int, w: u64|
                    0 <= k2 < ranges@.len() && in_span(
                        w,
                        ranges@[k2].start.addr_spec(),
                        ranges@[k2].end.addr_spec(),
                        0x80_0000_0000u64,
                    ) ==> Self::mappable(w) && !s0.big_blocked(w),
                forall|w: u64|
                    Self::mappable(w) ==> ((#[trigger] self.big_blocked(w)) ==> s0.big_blocked(
                        w,
                    )),
                forall|w: u64|
                    Self::mappable(w) ==> ((#[trigger] self.leaf_present(w)) ==> s0.leaf_present(
                        w,
                    )),
                forall|k2: int, w: u64|
                    0 <= k2 < k && in_span(
                        w,
                        ranges@[k2].start.addr_spec(),
                        ranges@[k2].end.addr_spec(),
                        0x80_0000_0000u64,
                    ) ==> pte_present(self.entry4(w)) && pte_write(self.entry4(w))
                        && !pte_huge(self.entry4(w)),
            decreases n - k,
        {
            let range = ranges[k];
            let ghost sc = *self;
            match self.pass_level4(range.start.addr(), range.end.addr(), supply) {
                Ok(()) => {},
                Err(e) => {
                    return Err(MapError::AllocatorFailed);
                },
            }
            k = k + 1;
        }
        let mut k: usize = 0;
        while k < n
            invariant
                s0 == *old(self),
                sup0 == *old(supply),
                s0.wf(),
                n == ranges@.len(),
                k <= n,
                self.wf(),
                supply.wf(),
                self.supply_fresh(*supply),
                supply.end_spec() == sup0.end_spec(),
                sup0.next_spec() <= supply.next_spec(),
                self.root_spec() == s0.root_spec(),
                self.sets().l1s == s0.sets().l1s,
                self.sets().roots == s0.sets().roots,
                forall|f2: u64| s0.has_table(f2) ==> self.has_table(f2),
                forall|k2: int|
                    0 <= k2 < ranges@.len() ==> ranges@[k2].end.addr_spec()
                        <= SIDE_BASE_ADDRESS_L1,
                forall|k2: int, w: u64|
                    0 <= k2 < ranges@.len() && in_span(
                        w,
                        ranges@[k2].start.addr_spec(),
                        ranges@[k2].end.addr_spec(),
                        0x80_0000_0000u64,
                    ) ==> Self::mappable(w) && !s0.big_blocked(w),
                forall|w: u64|
                    Self::mappable(w) ==> ((#[trigger] self.big_blocked(w)) ==> s0.big_blocked(
                        w,
                    )),
                forall|w: u64|
                    Self::mappable(w) ==> ((#[trigger] self.leaf_present(w)) ==> s0.leaf_present(
                        w,
                    )),
                forall|k2: int, w: u64|
                    0 <= k2 < ranges@.len() && in_span(
                        w,
                        ranges@[k2].start.addr_spec(),
                        ranges@[k2].end.addr_spec(),
                        0x80_0000_0000u64,
                    ) ==> pte_present(self.entry4(w)) && pte_write(self.entry4(w))
                        && !pte_huge(self.entry4(w)),
                forall|k2: int, w: u64|
                    0 <= k2 < k && in_span(
                        w,
                        ranges@[k2].start.addr_spec(),
                        ranges@[k2].end.addr_spec(),
                        0x4000_0000u64,
                    ) ==> pte_present(self.entry3(w)) && pte_write(self.entry3(w))
                        && !pte_huge(self.entry3(w)),
            decreases n - k,
        {
            let range = ranges[k];
            let ghost sc = *self;
            proof {
                assert forall|w: u64|
                    #[trigger] in_span(
                        w,
                        range.start.addr_spec(),
                        range.end.addr_spec(),
                        0x4000_0000u64,
                    ) implies Self::mappable(w) && pte_present(sc.entry4(w)) && !sc.big_blocked(
                    w,
                ) by {
                    lemma_span_nested(w, range.start.addr_spec(), range.end.addr_spec());
                }
            }
            match self.pass_level3(range.start.addr(), range.end.addr(), supply) {
                Ok(()) => {},
                Err(e) => {
                    return Err(MapError::AllocatorFailed);
                },
            }
            proof {
                assert forall|k2: int, w: u64|
                    0 <= k2 < ranges@.len() && in_span(
                        w,
                        ranges@[k2].start.addr_spec(),
                        ranges@[k2].end.addr_spec(),
                        0x80_0000_0000u64,
                    ) implies pte_present(self.entry4(w)) && pte_write(self.entry4(w))
                    && !pte_huge(self.entry4(w)) by {
                    assert(self.entry4(w) == sc.entry4(w));
                }
                assert forall|k2: int, w: u64|
                    0 <= k2 < k + 1 && in_span(
                        w,
                        ranges@[k2].start.addr_spec(),
                        ranges@[k2].end.addr_spec(),
                        0x4000_0000u64,
                    ) implies pte_present(self.entry3(w)) && pte_write(self.entry3(w))
                    && !pte_huge(self.entry3(w)) by {
                    lemma_span_nested(w, ranges@[k2].start.addr_spec(), ranges@[k2].end.addr_spec());
                    if k2 < k {
                        assert(pte_present(sc.entry3(w)) && pte_write(sc.entry3(w)) && !pte_huge(
                            sc.entry3(w),
                        ));
                        assert(self.entry3(w) == sc.entry3(w));
                    }
                }
            }
            k = k + 1;
        }
        let mut k: usize = 0;
        while k < n
            invariant
                s0 == *old(self),
                sup0 == *old(supply),
                s0.wf(),
                n == ranges@.len(),
                k <= n,
                self.wf(),
                supply.wf(),
                self.supply_fresh(*supply),
                supply.end_spec() == sup0.end_spec(),
                sup0.next_spec() <= supply.next_spec(),
                self.root_spec() == s0.root_spec(),
                self.sets().roots == s0.sets().roots,
                forall|f2: u64| s0.has_table(f2) ==> self.has_table(f2),
                forall|k2: int|
                    0 <= k2 < ranges@.len() ==> ranges@[k2].end.addr_spec()
                        <= SIDE_BASE_ADDRESS_L1,
                forall|k2: int, w: u64|
                    0 <= k2 < ranges@.len() && in_span(
                        w,
                        ranges@[k2].start.addr_spec(),
                        ranges@[k2].end.addr_spec(),
                        0x80_0000_0000u64,
                    ) ==> Self::mappable(w) && !s0.big_blocked(w),
                forall|w: u64|
                    Self::mappable(w) ==> ((#[trigger] self.big_blocked(w)) ==> s0.big_blocked(
                        w,
                    )),
                forall|w: u64|
                    Self::mappable(w) ==> ((#[trigger] self.leaf_present(w)) ==> s0.leaf_present(
                        w,
                    )),
                forall|k2: int, w: u64|
                    0 <= k2 < ranges@.len() && in_span(
                        w,
                        ranges@[k2].start.addr_spec(),
                        ranges@[k2].end.addr_spec(),
                        0x80_0000_0000u64,
                    ) ==> pte_present(self.entry4(w)) && pte_write(self.entry4(w))
                        && !pte_huge(self.entry4(w)),
                forall|k2: int, w: u64|
                    0 <= k2 < ranges@.len() && in_span(
                        w,
                        ranges@[k2].start.addr_spec(),
                        ranges@[k2].end.addr_spec(),
                        0x4000_0000u64,
                    ) ==> pte_present(self.entry3(w)) && pte_write(self.entry3(w))
                        && !pte_huge(self.entry3(w)),
                forall|k2: int, w: u64|
                    0 <= k2 < k && in_span(
                        w,
                        ranges@[k2].start.addr_spec(),
                        ranges@[k2].end.addr_spec(),
                        0x20_0000u64,
                    ) ==> pte_present(self.entry2(w)) && pte_write(self.entry2(w))
                        && !pte_huge(self.entry2(w)),
            decreases n - k,
        {
            let range = ranges[k];
            let ghost sc = *self;
            proof {
                assert forall|w: u64|
                    #[trigger] in_span(
                        w,
                        range.start.addr_spec(),
                        range.end.addr_spec(),
                        0x20_0000u64,
                    ) implies Self::mappable(w) && pte_present(sc.entry4(w)) && pte_present(
                    sc.entry3(w),
                ) && !pte_huge(sc.entry3(w)) && !sc.big_blocked(w) by {
                    lemma_span_nested(w, range.start.addr_spec(), range.end.addr_spec());
                }
            }
            match self.pass_level2(range.start.addr(), range.end.addr(), supply) {
                Ok(()) => {},
                Err(e) => {
                    return Err(MapError::AllocatorFailed);
                },
            }
            proof {
                assert forall|k2: int, w: u64|
                    0 <= k2 < ranges@.len() && in_span(
                        w,
                        ranges@[k2].start.addr_spec(),
                        ranges@[k2].end.addr_spec(),
                        0x80_0000_0000u64,
                    ) implies pte_present(self.entry4(w)) && pte_write(self.entry4(w))
                    && !pte_huge(self.entry4(w)) by {
                    assert(self.entry4(w) == sc.entry4(w));
                }
                assert forall|k2: int, w: u64|
                    0 <= k2 < ranges@.len() && in_span(
                        w,
                        ranges@[k2].start.addr_spec(),
                        ranges@[k2].end.addr_spec(),
                        0x4000_0000u64,
                    ) implies pte_present(self.entry3(w)) && pte_write(self.entry3(w))
                    && !pte_huge(self.entry3(w)) by {
                    lemma_span_nested(w, ranges@[k2].start.addr_spec(), ranges@[k2].end.addr_spec());
                    assert(self.entry3(w) == sc.entry3(w));
                }
                assert forall|k2: int, w: u64|
                    0 <= k2 < k + 1 && in_span(
                        w,
                        ranges@[k2].start.addr_spec(),
                        ranges@[k2].end.addr_spec(),
                        0x20_0000u64,
                    ) implies pte_present(self.entry2(w)) && pte_write(self.entry2(w))
                    && !pte_huge(self.entry2(w)) by {
                    lemma_span_nested(w, ranges@[k2].start.addr_spec(), ranges@[k2].end.addr_spec());
                    if k2 < k {
                        assert(pte_present(sc.entry2(w)) && pte_write(sc.entry2(w)) && !pte_huge(
                            sc.entry2(w),
                        ));
                        assert(self.entry2(w) == sc.entry2(w));
                    }
                }
            }
            k = k + 1;
        }
        proof {
            assert forall|k2: int, w: u64|
                0 <= k2 < ranges@.len() && ranges@[k2].start.addr_spec() <= w
                    < ranges@[k2].end.addr_spec() implies #[trigger] in_span(
                w,
                ranges@[k2].start.addr_spec(),
                ranges@[k2].end.addr_spec(),
                0x20_0000u64,
            ) by {
                vstd::arithmetic::div_mod::lemma_mod_bound(
                    ranges@[k2].start.addr_spec() as int,
                    0x20_0000,
                );
                vstd::arithmetic::div_mod::lemma_mod_bound(w as int, 0x20_0000);
            }
            assert forall|k2: int, w: u64|
                #![trigger ranges@[k2].start.addr_spec(), self.missing_tables(w)]
                0 <= k2 < ranges@.len() && ranges@[k2].start.addr_spec() <= w
                    < ranges@[k2].end.addr_spec() implies self.missing_tables(w) == 0
                && !self.big_blocked(w) && pte_write(self.entry4(w)) && pte_write(self.entry3(w))
                && pte_write(self.entry2(w)) by {
                assert(in_span(
                    w,
                    ranges@[k2].start.addr_spec(),
                    ranges@[k2].end.addr_spec(),
                    0x20_0000u64,
                ));
                lemma_span_nested(w, ranges@[k2].start.addr_spec(), ranges@[k2].end.addr_spec());
            }
        }
        Ok(())
    }

    /// The root-level pass of shared range construction: ensures an
    /// entry for every 512 GiB block meeting `[start, end)` and copies
    /// each such entry into the same slot of the foreign root `side`.
    fn pass_level4_shared(&mut self, start: u64, end: u64, side: u64, supply: &mut FrameSupply)
        -> (r: Result<(), MapError>)
        requires
            old(self).wf(),
            old(supply).wf(),
            old(self).supply_fresh(*old(supply)),
            old(self).sets().roots.contains(side),
            end <= SIDE_BASE_ADDRESS_L1,
            forall|w: u64|
                #[trigger] in_span(w, start, end, 0x80_0000_0000u64) ==> Self::mappable(w)
                    && (old(self).entry4(w) == 0 || pte_present(old(self).entry4(w))),
        ensures
            final(self).wf(),
            final(supply).wf(),
            final(supply).end_spec() == old(supply).end_spec(),
            old(supply).next_spec() <= final(supply).next_spec(),
            final(self).supply_fresh(*final(supply)),
            final(self).root_spec() == old(self).root_spec(),
            old(self).sets().l3s.subset_of(final(self).sets().l3s),
            final(self).sets().l2s == old(self).sets().l2s,
            final(self).sets().l1s == old(self).sets().l1s,
            final(self).sets().roots == old(self).sets().roots,
            forall|f2: u64| old(self).has_table(f2) ==> final(self).has_table(f2),
            forall|f2: u64|
                old(self).has_table(f2) && f2 != old(self).root_spec() && f2 != side
                    ==> #[trigger] final(self).table(f2) == old(self).table(f2),
            forall|w: u64|
                pte_present(old(self).entry4(w)) ==> #[trigger] final(self).entry4(w) == old(
                    self,
                ).entry4(w),
            forall|w: u64|
                #[trigger] final(self).entry4(w) == old(self).entry4(w) || (pte_present(
                    final(self).entry4(w),
                ) && pte_write(final(self).entry4(w)) && !pte_huge(final(self).entry4(w))),
            final(self).table(final(self).root_spec())[510] == old(self).table(
                old(self).root_spec(),
            )[510],
            forall|w: u64|
                Self::mappable(w) ==> ((#[trigger] final(self).big_blocked(w)) ==> old(
                    self,
                ).big_blocked(w)),
            forall|w: u64|
                Self::mappable(w) ==> ((#[trigger] final(self).leaf_present(w)) ==> old(
                    self,
                ).leaf_present(w)),
            forall|w: u64|
                #[trigger] final(self).table(side)[l4_index(w)] == old(self).table(side)[
                    l4_index(w)] || final(self).table(side)[l4_index(w)] == final(self).entry4(
                    w,
                ),
            r is Ok ==> forall|w: u64|
                #[trigger] in_span(w, start, end, 0x80_0000_0000u64) ==> pte_present(
                    final(self).entry4(w),
                ) && pte_write(final(self).entry4(w)) && !pte_huge(final(self).entry4(w))
                    && final(self).table(side)[l4_index(w)] == final(self).entry4(w),
            !(r is Ok) ==> r == Err::<(), MapError>(MapError::AllocatorFailed),
    {
        let s: u64 = 0x80_0000_0000;
        let lo = start - start % s;
        let mut va = lo;
        let ghost s0 = *old(self);
        let ghost sup0 = *old(supply);
        proof {
            assert(side != s0.root_spec());
        }
        while va < end
            invariant
                s0 == *old(self),
                sup0 == *old(supply),
                s0.wf(),
                self.wf(),
                supply.wf(),
                self.supply_fresh(*supply),
                supply.end_spec() == sup0.end_spec(),
                sup0.next_spec() <= supply.next_spec(),
                self.root_spec() == s0.root_spec(),
                self.sets().roots.contains(side),
                side != s0.root_spec(),
                s0.sets().l3s.subset_of(self.sets().l3s),
                self.sets().l2s == s0.sets().l2s,
                self.sets().l1s == s0.sets().l1s,
                self.sets().roots == s0.sets().roots,
                forall|f2: u64| s0.has_table(f2) ==> self.has_table(f2),
                forall|f2: u64|
                    s0.has_table(f2) && f2 != s0.root_spec() && f2 != side
                        ==> #[trigger] self.table(f2) == s0.table(f2),
                forall|w: u64|
                    pte_present(s0.entry4(w)) ==> #[trigger] self.entry4(w) == s0.entry4(w),
                forall|w: u64|
                    #[trigger] self.entry4(w) == s0.entry4(w) || (pte_present(self.entry4(w))
                        && pte_write(self.entry4(w)) && !pte_huge(self.entry4(w))),
                forall|w: u64|
                    #[trigger] self.table(side)[l4_index(w)] == s0.table(side)[l4_index(w)]
                        || self.table(side)[l4_index(w)] == self.entry4(w),
                self.table(self.root_spec())[510] == s0.table(s0.root_spec())[510],
                forall|w: u64|
                    Self::mappable(w) ==> ((#[trigger] self.big_blocked(w)) ==> s0.big_blocked(
                        w,
                    )),
                forall|w: u64|
                    Self::mappable(w) ==> ((#[trigger] self.leaf_present(w)) ==> s0.leaf_present(
                        w,
                    )),
                forall|w: u64|
                    #[trigger] in_span(w, start, end, 0x80_0000_0000u64) ==> Self::mappable(w)
                        && (s0.entry4(w) == 0 || pte_present(s0.entry4(w))),
                forall|w: u64|
                    in_span(w, start, end, 0x80_0000_0000u64) && w - w % 0x80_0000_0000u64 < va
                        ==> pte_present(#[trigger] self.entry4(w)) && pte_write(self.entry4(w))
                        && !pte_huge(self.entry4(w)) && self.table(side)[l4_index(w)]
                        == self.entry4(w),
                end <= SIDE_BASE_ADDRESS_L1,
                va % s == 0,
                lo <= va,
                lo == start - start % s,
                s == 0x80_0000_0000u64,
            decreases end + s - va,
        {
            proof {
                vstd::arithmetic::div_mod::lemma_mod_bound(va as int, s as int);
                vstd::arithmetic::div_mod::lemma_small_mod(0nat, s as nat);
                assert(in_span(va, start, end, s));
                lemma_index_bounds(va);
            }
            let i4 = idx4(va);
            let e4 = self.table_entry(self.root, i4);
            let ghost sc = *self;
            let ghost installed: bool = e4 == 0;
            if e4 == 0 {
                match self.install_child_table(self.root, i4, supply, Ghost(3int)) {
                    Some(nf) => {
                        proof {
                            lemma_pte_zero();
                            lemma_pte_interior(nf);
                        }
                    },
                    None => {
                        return Err(MapError::AllocatorFailed);
                    },
                }
            }
            let ghost sm = *self;
            let cur = self.table_entry(self.root, i4);
            self.set_table_entry(side, i4, cur);
            proof {
                let sn = *self;
                let g = sm.sets();
                lemma_pte_zero();
                // the copied value is a valid foreign-root entry, so the
                // space stays well formed
                assert(sm.root_entry_ok(cur));
                assert forall|f2: u64| #[trigger] g.roots.contains(f2) implies sn.table_ok(
                    f2,
                ) by {
                    assert(sm.table_ok(f2));
                }
                assert forall|f2: u64| #[trigger] g.l3s.contains(f2) implies sn.table_ok(f2) by {
                    assert(sm.table_ok(f2));
                }
                assert forall|f2: u64| #[trigger] g.l2s.contains(f2) implies sn.table_ok(f2) by {
                    assert(sm.table_ok(f2));
                }
                assert forall|f2: u64| #[trigger] g.l1s.contains(f2) implies sn.table_ok(f2) by {
                    assert(sm.table_ok(f2));
                }
                assert forall|f2: u64, j: int|
                    g.roots.contains(f2) && 0 <= j < 512 implies sn.root_entry_ok(
                    #[trigger] sn.table(f2)[j],
                ) by {
                    assert(sm.root_entry_ok(sm.table(f2)[j]));
                    if f2 == side && j == i4 as int {
                        assert(sn.table(f2)[j] == cur);
                    }
                }
                assert forall|j: int| 0 <= j < 510 implies sn.root_entry_ok(
                    #[trigger] sn.table(sn.root_spec())[j],
                ) by {
                    assert(sm.root_entry_ok(sm.table(sm.root_spec())[j]));
                }
                assert forall|f2: u64, j: int|
                    g.l3s.contains(f2) && 0 <= j < 512 implies Self::mid_entry_ok(
                    #[trigger] sn.table(f2)[j],
                    g.l2s,
                    0x4000_0000u64,
                ) by {
                    assert(Self::mid_entry_ok(sm.table(f2)[j], g.l2s, 0x4000_0000u64));
                }
                assert forall|f2: u64, j: int|
                    g.l2s.contains(f2) && 0 <= j < 512 implies Self::mid_entry_ok(
                    #[trigger] sn.table(f2)[j],
                    g.l1s,
                    0x20_0000u64,
                ) by {
                    assert(Self::mid_entry_ok(sm.table(f2)[j], g.l1s, 0x20_0000u64));
                }
                assert(sn.wf());
                assert forall|w: u64|
                    #[trigger] sn.entry4(w) == s0.entry4(w) || (pte_present(sn.entry4(w))
                        && pte_write(sn.entry4(w)) && !pte_huge(sn.entry4(w))) by {
                    lemma_index_bounds(w);
                    lemma_index_bounds(va);
                    if installed && l4_index(w) == l4_index(va) {
                        assert(sn.entry4(w) == sn.entry4(va));
                    } else {
                        assert(sn.entry4(w) == sc.entry4(w));
                    }
                }
                assert(pte_present(sn.entry4(va)) && pte_write(sn.entry4(va)) && !pte_huge(
                    sn.entry4(va),
                ));
                assert forall|w: u64| pte_present(s0.entry4(w)) implies #[trigger] sn.entry4(w)
                    == s0.entry4(w) by {
                    lemma_index_bounds(w);
                    assert(sc.entry4(w) == s0.entry4(w));
                    if installed && l4_index(w) == l4_index(va) {
                        assert(sc.entry4(va) == sc.entry4(w));
                        assert(false);
                    }
                }
                assert forall|w: u64|
                    #[trigger] sn.table(side)[l4_index(w)] == s0.table(side)[l4_index(w)]
                        || sn.table(side)[l4_index(w)] == sn.entry4(w) by {
                    lemma_index_bounds(w);
                    lemma_index_bounds(va);
                    if l4_index(w) == l4_index(va) {
                        assert(sn.table(side)[l4_index(w)] == cur);
                        assert(sn.entry4(w) == sn.entry4(va));
                    } else {
                        assert(sn.table(side)[l4_index(w)] == sc.table(side)[l4_index(w)]);
                        assert(sn.entry4(w) == sc.entry4(w));
                    }
                }
                assert forall|w: u64|
                    in_span(w, start, end, s) && w - w % s < va + s implies pte_present(
                    #[trigger] sn.entry4(w),
                ) && pte_write(sn.entry4(w)) && !pte_huge(sn.entry4(w)) && sn.table(side)[
                    l4_index(w)] == sn.entry4(w) by {
                    lemma_index_bounds(w);
                    lemma_index_bounds(va);
                    vstd::arithmetic::div_mod::lemma_mod_bound(w as int, s as int);
                    if w - w % s < va {
                        assert(pte_present(sc.entry4(w)) && pte_write(sc.entry4(w)) && !pte_huge(
                            sc.entry4(w),
                        ) && sc.table(side)[l4_index(w)] == sc.entry4(w));
                        if installed && l4_index(w) == l4_index(va) {
                            assert(sc.entry4(va) == sc.entry4(w));
                            assert(false);
                        }
                        assert(sn.entry4(w) == sc.entry4(w));
                        if l4_index(w) == l4_index(va) {
                            assert(sn.table(side)[l4_index(w)] == cur);
                            assert(cur == sn.entry4(va));
                            assert(sn.entry4(w) == sn.entry4(va));
                        } else {
                            assert(sn.table(side)[l4_index(w)] == sc.table(side)[l4_index(w)]);
                        }
                    } else {
                        let off = (w - va) as u64;
                        lemma_block_offset_512(va, off);
                        assert(w == va + off);
                        assert(sn.entry4(w) == sn.entry4(va));
                    }
                }
                assert forall|w: u64|
                    Self::mappable(w) && #[trigger] sn.big_blocked(w) implies s0.big_blocked(
                    w,
                ) by {
                    lemma_index_bounds(w);
                    lemma_index_bounds(va);
                    if installed && l4_index(w) == l4_index(va) {
                        let nf2 = pte_pfa(sn.entry4(w));
                        assert(sn.entry4(w) == sn.entry4(va));
                        assert(forall|j: int| 0 <= j < 512 ==> sm.table(nf2)[j] == 0);
                        assert(sn.table(nf2) == sm.table(nf2));
                        assert(!pte_present(sn.entry3(w)));
                        assert(false);
                    } else {
                        assert(sn.entry4(w) == sc.entry4(w));
                        if pte_present(sc.entry4(w)) {
                            sc.lemma_mappable_path(w);
                            assert(sn.entry3(w) == sc.entry3(w));
                            if pte_present(sc.entry3(w)) && !pte_huge(sc.entry3(w)) {
                                assert(sn.entry2(w) == sc.entry2(w));
                            }
                        }
                        assert(sc.big_blocked(w));
                    }
                }
                assert forall|w: u64|
                    Self::mappable(w) && #[trigger] sn.leaf_present(w) implies sc.leaf_present(
                    w,
                ) by {
                    lemma_index_bounds(w);
                    lemma_index_bounds(va);
                    if installed && l4_index(w) == l4_index(va) {
                        assert(sn.entry4(w) == sn.entry4(va));
                        assert(sn.table(pte_pfa(sn.entry4(w))) == sm.table(pte_pfa(sn.entry4(w))));
                        assert(!pte_present(sn.entry3(w)));
                        assert(false);
                    } else {
                        assert(sn.entry4(w) == sc.entry4(w));
                        if pte_present(sc.entry4(w)) {
                            sc.lemma_mappable_path(w);
                            assert(sn.entry3(w) == sc.entry3(w));
                            if pte_present(sc.entry3(w)) && !pte_huge(sc.entry3(w)) {
                                assert(sn.entry2(w) == sc.entry2(w));
                                if pte_present(sc.entry2(w)) && !pte_huge(sc.entry2(w)) {
                                    assert(sn.entry1(w) == sc.entry1(w));
                                }
                            }
                        }
                    }
                }
            }
            va = va + s;
        }
        Ok(())
    }

    /// Creates paging structures for the given ranges in both the
    /// current and the side-loaded address spaces.
    ///
    /// The foreign root `side` is loaded into slot 510; every root-level
    /// entry covering the ranges is created (from `supply`) if needed
    /// and copied into the same slot of `side`, sharing the whole
    /// subtree below; the L3 and L2 structures are then built as in
    /// [`Self::make_ranges`]; and the side slot is cleared again.  On
    /// success the foreign root frame is handed back.
    pub fn make_shared_ranges(
        &mut self,
        ranges: &Vec<VRange>,
        side: crate::PF4K,
        supply: &mut FrameSupply,
    ) -> (r: Result<crate::PF4K, MapError>)
        requires
            old(self).wf(),
            old(supply).wf(),
            old(self).supply_fresh(*old(supply)),
            old(self).sets().roots.contains(side.pfa_spec().addr_spec()),
            forall|k: int|
                0 <= k < ranges@.len() ==> ranges@[k].end.addr_spec() <= SIDE_BASE_ADDRESS_L1,
            forall|k: int, w: u64|
                0 <= k < ranges@.len() && in_span(
                    w,
                    ranges@[k].start.addr_spec(),
                    ranges@[k].end.addr_spec(),
                    0x80_0000_0000u64,
                ) ==> Self::mappable(w) && !old(self).big_blocked(w) && (old(self).entry4(w) == 0
                    || pte_present(old(self).entry4(w))),
        ensures
            final(self).wf(),
            final(supply).wf(),
            final(supply).end_spec() == old(supply).end_spec(),
            old(supply).next_spec() <= final(supply).next_spec(),
            final(self).supply_fresh(*final(supply)),
            final(self).root_spec() == old(self).root_spec(),
            final(self).sets().roots == old(self).sets().roots,
            final(self).side_slot() == 0,
            forall|f2: u64| old(self).has_table(f2) ==> final(self).has_table(f2),
            forall|w: u64|
                Self::mappable(w) ==> ((#[trigger] final(self).big_blocked(w)) ==> old(
                    self,
                ).big_blocked(w)),
            forall|w: u64|
                Self::mappable(w) ==> ((#[trigger] final(self).leaf_present(w)) ==> old(
                    self,
                ).leaf_present(w)),
            forall|w: u64|
                Self::mappable(w) ==> (#[trigger] final(self).entry4(w) == old(self).entry4(w)
                    || (pte_present(final(self).entry4(w)) && pte_write(final(self).entry4(w))
                    && !pte_huge(final(self).entry4(w)))),
            r is Ok ==> r == Ok::<crate::PF4K, MapError>(side),
            r is Ok ==> forall|k: int, w: u64|
                0 <= k < ranges@.len() && ranges@[k].start.addr_spec() <= w < ranges@[k].end.addr_spec()
                    ==> (#[trigger] in_span(
                    w,
                    ranges@[k].start.addr_spec(),
                    ranges@[k].end.addr_spec(),
                    0x20_0000u64,
                ) && final(self).missing_tables(w) == 0 && !final(self).big_blocked(w)
                    && pte_write(final(self).entry4(w)) && pte_write(final(self).entry3(w))
                    && pte_write(final(self).entry2(w)) && final(self).table(
                    side.pfa_spec().addr_spec(),
                )[l4_index(w)] == final(self).entry4(w)),
            !(r is Ok) ==> r == Err::<crate::PF4K, MapError>(MapError::AllocatorFailed),
    {
        let sf = side.pfa().addr();
        let _ = self.side_load(side);
        let ghost s1 = *self;
        let ghost sup0 = *old(supply);
        proof {
            assert(s1.table(s1.root_spec()) == old(self).table(old(self).root_spec()).update(
                510,
                sf | 3u64,
            ));
            Self::lemma_slot510_update(*old(self), s1);
        }
        let n = ranges.len();
        let mut k: usize = 0;
        while k < n
            invariant
                s1.wf(),
                sup0 == *old(supply),
                s1.root_spec() == old(self).root_spec(),
                s1.sets() == old(self).sets(),
                s1.side_slot() == sf | 3u64,
                forall|f2: u64| #[trigger] old(self).has_table(f2) ==> s1.has_table(f2),
                forall|w: u64|
                    Self::mappable(w) ==> ((#[trigger] s1.big_blocked(w)) == old(
                        self,
                    ).big_blocked(w)),
                forall|w: u64|
                    Self::mappable(w) ==> #[trigger] s1.entry4(w) == old(self).entry4(w),
                forall|w: u64|
                    Self::mappable(w) ==> ((#[trigger] s1.leaf_present(w)) == old(
                        self,
                    ).leaf_present(w)),
                forall|w: u64|
                    Self::mappable(w) ==> ((#[trigger] self.leaf_present(w)) ==> s1.leaf_present(
                        w,
                    )),
                n == ranges@.len(),
                k <= n,
                sf == side.pfa_spec().addr_spec(),
                self.wf(),
                supply.wf(),
                self.supply_fresh(*supply),
                supply.end_spec() == sup0.end_spec(),
                sup0.next_spec() <= supply.next_spec(),
                self.root_spec() == s1.root_spec(),
                self.sets().roots == s1.sets().roots,
                self.sets().roots.contains(sf),
                forall|f2: u64| s1.has_table(f2) ==> self.has_table(f2),
                forall|k2: int|
                    0 <= k2 < ranges@.len() ==> ranges@[k2].end.addr_spec()
                        <= SIDE_BASE_ADDRESS_L1,
                forall|k2: int, w: u64|
                    0 <= k2 < ranges@.len() && in_span(
                        w,
                        ranges@[k2].start.addr_spec(),
                        ranges@[k2].end.addr_spec(),
                        0x80_0000_0000u64,
                    ) ==> Self::mappable(w) && !s1.big_blocked(w) && (s1.entry4(w) == 0
                        || pte_present(s1.entry4(w))),
                forall|w: u64|
                    Self::mappable(w) ==> ((#[trigger] self.big_blocked(w)) ==> s1.big_blocked(
                        w,
                    )),
                forall|w: u64|
                    pte_present(s1.entry4(w)) ==> #[trigger] self.entry4(w) == s1.entry4(w),
                forall|w: u64|
                    #[trigger] self.entry4(w) == s1.entry4(w) || (pte_present(self.entry4(w))
                        && pte_write(self.entry4(w)) && !pte_huge(self.entry4(w))),
                self.table(self.root_spec())[510] == s1.table(s1.root_spec())[510],
                forall|k2: int, w: u64|
                    0 <= k2 < k && #[trigger] in_span(
                        w,
                        ranges@[k2].start.addr_spec(),
                        ranges@[k2].end.addr_spec(),
                        0x80_0000_0000u64,
                    ) ==> pte_present(self.entry4(w)) && pte_write(self.entry4(w)) && !pte_huge(
                        self.entry4(w),
                    ) && self.table(sf)[l4_index(w)] == self.entry4(w),
            decreases n - k,
        {
            let range = ranges[k];
            let ghost sc = *self;
            proof {
                assert forall|w: u64|
                    #[trigger] in_span(
                        w,
                        range.start.addr_spec(),
                        range.end.addr_spec(),
                        0x80_0000_0000u64,
                    ) implies Self::mappable(w) && (sc.entry4(w) == 0 || pte_present(
                    sc.entry4(w),
                )) by {
                    assert(sc.entry4(w) == s1.entry4(w) || (pte_present(sc.entry4(w))
                        && pte_write(sc.entry4(w)) && !pte_huge(sc.entry4(w))));
                }
            }
            match self.pass_level4_shared(range.start.addr(), range.end.addr(), sf, supply) {
                Ok(()) => {},
                Err(e) => {
                    let ghost se = *self;
                    let _ = self.unload_side();
                    proof {
                        Self::lemma_slot510_update(se, *self);
                        assert forall|f2: u64|
                            old(self).has_table(f2) implies self.has_table(f2) by {
                            assert(sc.has_table(f2));
                            assert(se.has_table(f2));
                        }
                    }
                    return Err(MapError::AllocatorFailed);
                },
            }
            proof {
                assert forall|k2: int, w: u64|
                    0 <= k2 < k + 1 && #[trigger] in_span(
                        w,
                        ranges@[k2].start.addr_spec(),
                        ranges@[k2].end.addr_spec(),
                        0x80_0000_0000u64,
                    ) implies pte_present(self.entry4(w)) && pte_write(self.entry4(w))
                    && !pte_huge(self.entry4(w)) && self.table(sf)[l4_index(w)]
                    == self.entry4(w) by {
                    lemma_index_bounds(w);
                    if k2 < k {
                        assert(pte_present(sc.entry4(w)) && pte_write(sc.entry4(w)) && !pte_huge(
                            sc.entry4(w),
                        ) && sc.table(sf)[l4_index(w)] == sc.entry4(w));
                        assert(self.entry4(w) == sc.entry4(w));
                        assert(self.table(sf)[l4_index(w)] == sc.table(sf)[l4_index(w)]
                            || self.table(sf)[l4_index(w)] == self.entry4(w));
                    }
                }
            }
            k = k + 1;
        }
        let ghost sm4 = *self;
        let mut k: usize = 0;
        while k < n
            invariant
                sm4.wf(),
                sup0 == *old(supply),
                sm4.root_spec() == old(self).root_spec(),
                sm4.sets().roots == old(self).sets().roots,
                sm4.side_slot() == sf | 3u64,
                forall|f2: u64| #[trigger] old(self).has_table(f2) ==> sm4.has_table(f2),
                forall|w: u64|
                    Self::mappable(w) ==> ((#[trigger] sm4.big_blocked(w)) ==> old(
                        self,
                    ).big_blocked(w)),
                forall|w: u64|
                    Self::mappable(w) ==> ((#[trigger] sm4.leaf_present(w)) ==> old(
                        self,
                    ).leaf_present(w)),
                forall|w: u64|
                    Self::mappable(w) ==> (#[trigger] sm4.entry4(w) == old(self).entry4(w) || (
                    pte_present(sm4.entry4(w)) && pte_write(sm4.entry4(w)) && !pte_huge(
                        sm4.entry4(w),
                    ))),
                forall|w: u64|
                    Self::mappable(w) ==> ((#[trigger] self.leaf_present(w))
                        ==> sm4.leaf_present(w)),
                n == ranges@.len(),
                k <= n,
                sf == side.pfa_spec().addr_spec(),
                self.wf(),
                supply.wf(),
                self.supply_fresh(*supply),
                supply.end_spec() == sup0.end_spec(),
                sup0.next_spec() <= supply.next_spec(),
                self.root_spec() == sm4.root_spec(),
                self.sets().roots == sm4.sets().roots,
                self.sets().roots.contains(sf),
                self.sets().l1s == sm4.sets().l1s,
                self.sets().l3s == sm4.sets().l3s,
                forall|f2: u64| sm4.has_table(f2) ==> self.has_table(f2),
                forall|f2: u64|
                    sm4.has_table(f2) && !sm4.sets().l3s.contains(f2) ==> #[trigger] self.table(
                        f2,
                    ) == sm4.table(f2),
                forall|k2: int|
                    0 <= k2 < ranges@.len() ==> ranges@[k2].end.addr_spec()
                        <= SIDE_BASE_ADDRESS_L1,
                forall|k2: int, w: u64|
                    0 <= k2 < ranges@.len() && in_span(
                        w,
                        ranges@[k2].start.addr_spec(),
                        ranges@[k2].end.addr_spec(),
                        0x80_0000_0000u64,
                    ) ==> Self::mappable(w) && !sm4.big_blocked(w),
                forall|w: u64|
                    Self::mappable(w) ==> ((#[trigger] self.big_blocked(w)) ==> sm4.big_blocked(
                        w,
                    )),
                forall|w: u64| #[trigger] self.entry4(w) == sm4.entry4(w),
                forall|k2: int, w: u64|
                    0 <= k2 < ranges@.len() && #[trigger] in_span(
                        w,
                        ranges@[k2].start.addr_spec(),
                        ranges@[k2].end.addr_spec(),
                        0x80_0000_0000u64,
                    ) ==> pte_present(self.entry4(w)) && pte_write(self.entry4(w)) && !pte_huge(
                        self.entry4(w),
                    ) && self.table(sf)[l4_index(w)] == self.entry4(w),
                forall|k2: int, w: u64|
                    0 <= k2 < k && #[trigger] in_span(
                        w,
                        ranges@[k2].start.addr_spec(),
                        ranges@[k2].end.addr_spec(),
                        0x4000_0000u64,
                    ) ==> pte_present(self.entry3(w)) && pte_write(self.entry3(w)) && !pte_huge(
                        self.entry3(w),
                    ),
            decreases n - k,
        {
            let range = ranges[k];
            let ghost sc = *self;
            proof {
                assert forall|w: u64|
                    #[trigger] in_span(
                        w,
                        range.start.addr_spec(),
                        range.end.addr_spec(),
                        0x4000_0000u64,
                    ) implies Self::mappable(w) && pte_present(sc.entry4(w)) && !sc.big_blocked(
                    w,
                ) by {
                    lemma_span_nested(w, range.start.addr_spec(), range.end.addr_spec());
                }
            }
            match self.pass_level3(range.start.addr(), range.end.addr(), supply) {
                Ok(()) => {},
                Err(e) => {
                    let ghost se = *self;
                    let _ = self.unload_side();
                    proof {
                        Self::lemma_slot510_update(se, *self);
                        assert forall|f2: u64|
                            old(self).has_table(f2) implies self.has_table(f2) by {
                            assert(sc.has_table(f2));
                            assert(se.has_table(f2));
                        }
                    }
                    return Err(MapError::AllocatorFailed);
                },
            }
            proof {
                assert forall|k2: int, w: u64|
                    0 <= k2 < ranges@.len() && #[trigger] in_span(
                        w,
                        ranges@[k2].start.addr_spec(),
                        ranges@[k2].end.addr_spec(),
                        0x80_0000_0000u64,
                    ) implies pte_present(self.entry4(w)) && pte_write(self.entry4(w))
                    && !pte_huge(self.entry4(w)) && self.table(sf)[l4_index(w)]
                    == self.entry4(w) by {
                    assert(self.entry4(w) == sc.entry4(w));
                    assert(self.table(sf) == sc.table(sf));
                }
                assert forall|k2: int, w: u64|
                    0 <= k2 < k + 1 && #[trigger] in_span(
                        w,
                        ranges@[k2].start.addr_spec(),
                        ranges@[k2].end.addr_spec(),
                        0x4000_0000u64,
                    ) implies pte_present(self.entry3(w)) && pte_write(self.entry3(w))
                    && !pte_huge(self.entry3(w)) by {
                    lemma_span_nested(w, ranges@[k2].start.addr_spec(), ranges@[k2].end.addr_spec());
                    if k2 < k {
                        assert(pte_present(sc.entry3(w)) && pte_write(sc.entry3(w)) && !pte_huge(
                            sc.entry3(w),
                        ));
                        assert(self.entry3(w) == sc.entry3(w));
                    }
                }
            }
            k = k + 1;
        }
        let ghost sm3 = *self;
        let mut k: usize = 0;
        while k < n
            invariant
                sm3.wf(),
                sup0 == *old(supply),
                sm3.root_spec() == old(self).root_spec(),
                sm3.sets().roots == old(self).sets().roots,
                sm3.side_slot() == sf | 3u64,
                forall|f2: u64| #[trigger] old(self).has_table(f2) ==> sm3.has_table(f2),
                forall|w: u64|
                    Self::mappable(w) ==> ((#[trigger] sm3.big_blocked(w)) ==> old(
                        self,
                    ).big_blocked(w)),
                forall|w: u64|
                    Self::mappable(w) ==> ((#[trigger] sm3.leaf_present(w)) ==> old(
                        self,
                    ).leaf_present(w)),
                forall|w: u64|
                    Self::mappable(w) ==> (#[trigger] sm3.entry4(w) == old(self).entry4(w) || (
                    pte_present(sm3.entry4(w)) && pte_write(sm3.entry4(w)) && !pte_huge(
                        sm3.entry4(w),
                    ))),
                forall|w: u64|
                    Self::mappable(w) ==> ((#[trigger] self.leaf_present(w))
                        ==> sm3.leaf_present(w)),
                n == ranges@.len(),
                k <= n,
                sf == side.pfa_spec().addr_spec(),
                self.wf(),
                supply.wf(),
                self.supply_fresh(*supply),
                supply.end_spec() == sup0.end_spec(),
                sup0.next_spec() <= supply.next_spec(),
                self.root_spec() == sm3.root_spec(),
                self.sets().roots == sm3.sets().roots,
                self.sets().roots.contains(sf),
                self.sets().l2s == sm3.sets().l2s,
                forall|f2: u64| sm3.has_table(f2) ==> self.has_table(f2),
                forall|f2: u64|
                    sm3.has_table(f2) && !sm3.sets().l2s.contains(f2) ==> #[trigger] self.table(
                        f2,
                    ) == sm3.table(f2),
                forall|k2: int|
                    0 <= k2 < ranges@.len() ==> ranges@[k2].end.addr_spec()
                        <= SIDE_BASE_ADDRESS_L1,
                forall|k2: int, w: u64|
                    0 <= k2 < ranges@.len() && in_span(
                        w,
                        ranges@[k2].start.addr_spec(),
                        ranges@[k2].end.addr_spec(),
                        0x80_0000_0000u64,
                    ) ==> Self::mappable(w) && !sm3.big_blocked(w),
                forall|w: u64|
                    Self::mappable(w) ==> ((#[trigger] self.big_blocked(w)) ==> sm3.big_blocked(
                        w,
                    )),
                forall|w: u64| #[trigger] self.entry4(w) == sm3.entry4(w),
                forall|w: u64|
                    pte_present(sm3.entry4(w)) ==> #[trigger] self.entry3(w) == sm3.entry3(w),
                forall|k2: int, w: u64|
                    0 <= k2 < ranges@.len() && #[trigger] in_span(
                        w,
                        ranges@[k2].start.addr_spec(),
                        ranges@[k2].end.addr_spec(),
                        0x80_0000_0000u64,
                    ) ==> pte_present(self.entry4(w)) && pte_write(self.entry4(w)) && !pte_huge(
                        self.entry4(w),
                    ) && self.table(sf)[l4_index(w)] == self.entry4(w),
                forall|k2: int, w: u64|
                    0 <= k2 < ranges@.len() && #[trigger] in_span(
                        w,
                        ranges@[k2].start.addr_spec(),
                        ranges@[k2].end.addr_spec(),
                        0x4000_0000u64,
                    ) ==> pte_present(self.entry3(w)) && pte_write(self.entry3(w)) && !pte_huge(
                        self.entry3(w),
                    ),
                forall|k2: int, w: u64|
                    0 <= k2 < k && #[trigger] in_span(
                        w,
                        ranges@[k2].start.addr_spec(),
                        ranges@[k2].end.addr_spec(),
                        0x20_0000u64,
                    ) ==> pte_present(self.entry2(w)) && pte_write(self.entry2(w)) && !pte_huge(
                        self.entry2(w),
                    ),
            decreases n - k,
        {
            let range = ranges[k];
            let ghost sc = *self;
            proof {
                assert forall|w: u64|
                    #[trigger] in_span(
                        w,
                        range.start.addr_spec(),
                        range.end.addr_spec(),
                        0x20_0000u64,
                    ) implies Self::mappable(w) && pte_present(sc.entry4(w)) && pte_present(
                    sc.entry3(w),
                ) && !pte_huge(sc.entry3(w)) && !sc.big_blocked(w) by {
                    lemma_span_nested(w, range.start.addr_spec(), range.end.addr_spec());
                }
            }
            match self.pass_level2(range.start.addr(), range.end.addr(), supply) {
                Ok(()) => {},
                Err(e) => {
                    let ghost se = *self;
                    let _ = self.unload_side();
                    proof {
                        Self::lemma_slot510_update(se, *self);
                        assert forall|f2: u64|
                            old(self).has_table(f2) implies self.has_table(f2) by {
                            assert(sc.has_table(f2));
                            assert(se.has_table(f2));
                        }
                    }
                    return Err(MapError::AllocatorFailed);
                },
            }
            proof {
                assert forall|k2: int, w: u64|
                    0 <= k2 < ranges@.len() && #[trigger] in_span(
                        w,
                        ranges@[k2].start.addr_spec(),
                        ranges@[k2].end.addr_spec(),
                        0x80_0000_0000u64,
                    ) implies pte_present(self.entry4(w)) && pte_write(self.entry4(w))
                    && !pte_huge(self.entry4(w)) && self.table(sf)[l4_index(w)]
                    == self.entry4(w) by {
                    assert(self.entry4(w) == sc.entry4(w));
                    assert(self.table(sf) == sc.table(sf));
                }
                assert forall|k2: int, w: u64|
                    0 <= k2 < ranges@.len() && #[trigger] in_span(
                        w,
                        ranges@[k2].start.addr_spec(),
                        ranges@[k2].end.addr_spec(),
                        0x4000_0000u64,
                    ) implies pte_present(self.entry3(w)) && pte_write(self.entry3(w))
                    && !pte_huge(self.entry3(w)) by {
                    lemma_span_nested(w, ranges@[k2].start.addr_spec(), ranges@[k2].end.addr_spec());
                    assert(self.entry3(w) == sc.entry3(w));
                }
                assert forall|k2: int, w: u64|
                    0 <= k2 < k + 1 && #[trigger] in_span(
                        w,
                        ranges@[k2].start.addr_spec(),
                        ranges@[k2].end.addr_spec(),
                        0x20_0000u64,
                    ) implies pte_present(self.entry2(w)) && pte_write(self.entry2(w))
                    && !pte_huge(self.entry2(w)) by {
                    lemma_span_nested(w, ranges@[k2].start.addr_spec(), ranges@[k2].end.addr_spec());
                    if k2 < k {
                        assert(pte_present(sc.entry2(w)) && pte_write(sc.entry2(w)) && !pte_huge(
                            sc.entry2(w),
                        ));
                        assert(self.entry2(w) == sc.entry2(w));
                    }
                }
            }
            k = k + 1;
        }
        let ghost sm2 = *self;
        let out = self.unload_side();
        proof {
            Self::lemma_slot510_update(sm2, *self);
            lemma_pte_interior(sf);
            assert(self.table(sf) == sm2.table(sf));
            assert forall|k2: int, w: u64|
                #![trigger ranges@[k2].start.addr_spec(), self.missing_tables(w)]
                0 <= k2 < ranges@.len() && ranges@[k2].start.addr_spec() <= w
                    < ranges@[k2].end.addr_spec() implies (in_span(
                w,
                ranges@[k2].start.addr_spec(),
                ranges@[k2].end.addr_spec(),
                0x20_0000u64,
            ) && self.missing_tables(w) == 0 && !self.big_blocked(w) && pte_write(
                self.entry4(w),
            ) && pte_write(self.entry3(w)) && pte_write(self.entry2(w)) && self.table(sf)[
                l4_index(w)] == self.entry4(w)) by {
                lemma_index_bounds(w);
                vstd::arithmetic::div_mod::lemma_mod_bound(
                    ranges@[k2].start.addr_spec() as int,
                    0x20_0000,
                );
                vstd::arithmetic::div_mod::lemma_mod_bound(w as int, 0x20_0000);
                assert(in_span(
                    w,
                    ranges@[k2].start.addr_spec(),
                    ranges@[k2].end.addr_spec(),
                    0x20_0000u64,
                ));
                lemma_span_nested(w, ranges@[k2].start.addr_spec(), ranges@[k2].end.addr_spec());
                assert(self.entry4(w) == sm2.entry4(w));
                assert(self.entry3(w) == sm2.entry3(w));
                assert(self.entry2(w) == sm2.entry2(w));
            }
        }
        match out {
            Ok(_) => Ok(crate::PF4K::new(crate::HPA::new(sf))),
            Err(e) => Err(e),
        }
    }

    /// Rewriting slot 510 of the root changes no walk of an address
    /// outside the map windows.
    proof fn lemma_slot510_update(s_old: AddressSpace, s_new: AddressSpace)
        requires
            s_old.wf(),
            s_new.root_spec() == s_old.root_spec(),
            s_new.sets() == s_old.sets(),
            forall|f2: u64| s_new.has_table(f2) <==> s_old.has_table(f2),
            exists|x: u64|
                s_new.table(s_new.root_spec()) == s_old.table(s_old.root_spec()).update(510, x),
            forall|f2: u64|
                f2 != s_old.root_spec() ==> #[trigger] s_new.table(f2) == s_old.table(f2),
        ensures
            forall|w: u64|
                Self::mappable(w) ==> #[trigger] s_new.entry4(w) == s_old.entry4(w),
            forall|w: u64|
                Self::mappable(w) && pte_present(s_old.entry4(w)) ==> #[trigger] s_new.entry3(w)
                    == s_old.entry3(w),
            forall|w: u64|
                Self::mappable(w) && pte_present(s_old.entry4(w)) && pte_present(
                    s_old.entry3(w),
                ) && !pte_huge(s_old.entry3(w)) ==> #[trigger] s_new.entry2(w) == s_old.entry2(
                    w,
                ),
            forall|w: u64|
                Self::mappable(w) && pte_present(s_old.entry4(w)) && pte_present(
                    s_old.entry3(w),
                ) && !pte_huge(s_old.entry3(w)) && pte_present(s_old.entry2(w)) && !pte_huge(
                    s_old.entry2(w),
                ) ==> #[trigger] s_new.entry1(w) == s_old.entry1(w),
            forall|w: u64|
                Self::mappable(w) ==> ((#[trigger] s_new.leaf_present(w))
                    == s_old.leaf_present(w)),
            forall|w: u64|
                Self::mappable(w) ==> ((#[trigger] s_new.big_blocked(w)) == s_old.big_blocked(
                    w,
                )),
            forall|w: u64|
                Self::mappable(w) && !s_old.big_blocked(w) ==> #[trigger] s_new.missing_tables(
                    w,
                ) == s_old.missing_tables(w),
    {
        assert forall|w: u64| Self::mappable(w) implies #[trigger] s_new.entry4(w)
            == s_old.entry4(w) by {
            lemma_index_bounds(w);
        }
        assert forall|w: u64|
            Self::mappable(w) && pte_present(s_old.entry4(w)) implies #[trigger] s_new.entry3(w)
            == s_old.entry3(w) by {
            lemma_index_bounds(w);
            s_old.lemma_mappable_path(w);
        }
        assert forall|w: u64|
            Self::mappable(w) && pte_present(s_old.entry4(w)) && pte_present(s_old.entry3(w))
                && !pte_huge(s_old.entry3(w)) implies #[trigger] s_new.entry2(w)
            == s_old.entry2(w) by {
            lemma_index_bounds(w);
            s_old.lemma_mappable_path(w);
        }
        assert forall|w: u64|
            Self::mappable(w) && pte_present(s_old.entry4(w)) && pte_present(s_old.entry3(w))
                && !pte_huge(s_old.entry3(w)) && pte_present(s_old.entry2(w)) && !pte_huge(
                s_old.entry2(w),
            ) implies #[trigger] s_new.entry1(w) == s_old.entry1(w) by {
            lemma_index_bounds(w);
            s_old.lemma_mappable_path(w);
        }
        assert forall|w: u64| Self::mappable(w) implies ((#[trigger] s_new.leaf_present(w))
            == s_old.leaf_present(w)) by {
            lemma_index_bounds(w);
        }
        assert forall|w: u64| Self::mappable(w) implies ((#[trigger] s_new.big_blocked(w))
            == s_old.big_blocked(w)) by {
            lemma_index_bounds(w);
        }
        assert forall|w: u64|
            Self::mappable(w) && !s_old.big_blocked(w) implies #[trigger] s_new.missing_tables(
            w,
        ) == s_old.missing_tables(w) by {
            lemma_index_bounds(w);
        }
    }

    /// Unmaps a region by clearing its root-level entries.  Only useful
    /// for segment and task prototype spaces: the subtrees below remain
    /// allocated and can still be shared into a recipient space.
    pub fn unmap_root_ranges(&mut self, ranges: &Vec<VRange>)
        requires
            old(self).wf(),
            forall|k: int|
                0 <= k < ranges@.len() ==> ranges@[k].end.addr_spec() <= SIDE_BASE_ADDRESS_L1,
            forall|k: int, w: u64|
                0 <= k < ranges@.len() && #[trigger] in_span(
                    w,
                    ranges@[k].start.addr_spec(),
                    ranges@[k].end.addr_spec(),
                    0x80_0000_0000u64,
                ) ==> Self::mappable(w),
        ensures
            final(self).wf(),
            final(self).root_spec() == old(self).root_spec(),
            final(self).sets() == old(self).sets(),
            forall|f2: u64| final(self).has_table(f2) <==> old(self).has_table(f2),
            forall|f2: u64|
                f2 != old(self).root_spec() ==> #[trigger] final(self).table(f2) == old(
                    self,
                ).table(f2),
            final(self).table(final(self).root_spec())[510] == old(self).table(
                old(self).root_spec(),
            )[510],
            forall|w: u64|
                #[trigger] final(self).entry4(w) == old(self).entry4(w) || final(self).entry4(w)
                    == 0,
            forall|w: u64|
                !covers_slot(ranges@, w) ==> #[trigger] final(self).entry4(w) == old(
                    self,
                ).entry4(w),
            forall|w: u64|
                Self::mappable(w) ==> ((#[trigger] final(self).big_blocked(w)) ==> old(
                    self,
                ).big_blocked(w)),
            forall|k: int, w: u64|
                0 <= k < ranges@.len() && #[trigger] in_span(
                    w,
                    ranges@[k].start.addr_spec(),
                    ranges@[k].end.addr_spec(),
                    0x80_0000_0000u64,
                ) ==> final(self).entry4(w) == 0 && final(self).translate_spec(w) is None,
    {
        let ghost s0 = *old(self);
        let n = ranges.len();
        let mut k: usize = 0;
        while k < n
            invariant
                s0 == *old(self),
                s0.wf(),
                n == ranges@.len(),
                k <= n,
                self.wf(),
                self.root_spec() == s0.root_spec(),
                self.sets() == s0.sets(),
                forall|f2: u64| self.has_table(f2) <==> s0.has_table(f2),
                forall|f2: u64|
                    f2 != s0.root_spec() ==> #[trigger] self.table(f2) == s0.table(f2),
                self.table(self.root_spec())[510] == s0.table(s0.root_spec())[510],
                forall|w: u64|
                    #[trigger] self.entry4(w) == s0.entry4(w) || self.entry4(w) == 0,
                forall|w: u64|
                    !covers_slot(ranges@, w) ==> #[trigger] self.entry4(w) == s0.entry4(w),
                forall|w: u64|
                    Self::mappable(w) ==> ((#[trigger] self.big_blocked(w)) ==> s0.big_blocked(
                        w,
                    )),
                forall|k2: int|
                    0 <= k2 < ranges@.len() ==> ranges@[k2].end.addr_spec()
                        <= SIDE_BASE_ADDRESS_L1,
                forall|k2: int, w: u64|
                    0 <= k2 < ranges@.len() && #[trigger] in_span(
                        w,
                        ranges@[k2].start.addr_spec(),
                        ranges@[k2].end.addr_spec(),
                        0x80_0000_0000u64,
                    ) ==> Self::mappable(w),
                forall|k2: int, w: u64|
                    0 <= k2 < k && #[trigger] in_span(
                        w,
                        ranges@[k2].start.addr_spec(),
                        ranges@[k2].end.addr_spec(),
                        0x80_0000_0000u64,
                    ) ==> self.entry4(w) == 0,
            decreases n - k,
        {
            let range = ranges[k];
            let start = range.start.addr();
            let end = range.end.addr();
            let s: u64 = 0x80_0000_0000;
            let lo = start - start % s;
            let mut va = lo;
            while va < end
                invariant
                    s0 == *old(self),
                    s0.wf(),
                    n == ranges@.len(),
                    k < n,
                    range == ranges@[k as int],
                    start == range.start.addr_spec(),
                    end == range.end.addr_spec(),
                    end <= SIDE_BASE_ADDRESS_L1,
                    self.wf(),
                    self.root_spec() == s0.root_spec(),
                    self.sets() == s0.sets(),
                    forall|f2: u64| self.has_table(f2) <==> s0.has_table(f2),
                    forall|f2: u64|
                        f2 != s0.root_spec() ==> #[trigger] self.table(f2) == s0.table(f2),
                    self.table(self.root_spec())[510] == s0.table(s0.root_spec())[510],
                    forall|w: u64|
                        #[trigger] self.entry4(w) == s0.entry4(w) || self.entry4(w) == 0,
                    forall|w: u64|
                        !covers_slot(ranges@, w) ==> #[trigger] self.entry4(w) == s0.entry4(w),
                    forall|w: u64|
                        Self::mappable(w) ==> ((#[trigger] self.big_blocked(w))
                            ==> s0.big_blocked(w)),
                    forall|k2: int|
                        0 <= k2 < ranges@.len() ==> ranges@[k2].end.addr_spec()
                            <= SIDE_BASE_ADDRESS_L1,
                    forall|k2: int, w: u64|
                        0 <= k2 < ranges@.len() && #[trigger] in_span(
                            w,
                            ranges@[k2].start.addr_spec(),
                            ranges@[k2].end.addr_spec(),
                            0x80_0000_0000u64,
                        ) ==> Self::mappable(w),
                    forall|k2: int, w: u64|
                        0 <= k2 < k && #[trigger] in_span(
                            w,
                            ranges@[k2].start.addr_spec(),
                            ranges@[k2].end.addr_spec(),
                            0x80_0000_0000u64,
                        ) ==> self.entry4(w) == 0,
                    forall|w: u64|
                        in_span(w, start, end, 0x80_0000_0000u64) && w - w % 0x80_0000_0000u64
                            < va ==> #[trigger] self.entry4(w) == 0,
                    va % s == 0,
                    lo <= va,
                    lo == start - start % s,
                    s == 0x80_0000_0000u64,
                decreases end + s - va,
            {
                proof {
                    vstd::arithmetic::div_mod::lemma_mod_bound(va as int, s as int);
                    vstd::arithmetic::div_mod::lemma_small_mod(0nat, s as nat);
                    assert(in_span(va, start, end, s));
                    lemma_index_bounds(va);
                }
                proof {
                    assert(in_span(
                        va,
                        ranges@[k as int].start.addr_spec(),
                        ranges@[k as int].end.addr_spec(),
                        0x80_0000_0000u64,
                    ));
                    assert(Self::mappable(va));
                }
                let i4 = idx4(va);
                let ghost sc = *self;
                self.set_table_entry(self.root, i4, 0);
                proof {
                    lemma_pte_zero();
                    self.lemma_root_clear_wf(sc, i4 as int);
                    let sn = *self;
                    assert forall|w: u64|
                        in_span(w, start, end, s) && w - w % s < va + s implies #[trigger] sn.entry4(
                        w,
                    ) == 0 by {
                        lemma_index_bounds(w);
                        lemma_index_bounds(va);
                        vstd::arithmetic::div_mod::lemma_mod_bound(w as int, s as int);
                        if w - w % s < va {
                            if l4_index(w) != l4_index(va) {
                                assert(sn.entry4(w) == sc.entry4(w));
                            }
                        } else {
                            let off = (w - va) as u64;
                            lemma_block_offset_512(va, off);
                            assert(w == va + off);
                            assert(sn.entry4(w) == sn.entry4(va));
                        }
                    }
                    assert forall|k2: int, w: u64|
                        0 <= k2 < k && #[trigger] in_span(
                            w,
                            ranges@[k2].start.addr_spec(),
                            ranges@[k2].end.addr_spec(),
                            0x80_0000_0000u64,
                        ) implies sn.entry4(w) == 0 by {
                        lemma_index_bounds(w);
                        lemma_index_bounds(va);
                        if l4_index(w) != l4_index(va) {
                            assert(sn.entry4(w) == sc.entry4(w));
                        }
                    }
                    assert forall|w: u64|
                        #[trigger] sn.entry4(w) == s0.entry4(w) || sn.entry4(w) == 0 by {
                        lemma_index_bounds(w);
                        lemma_index_bounds(va);
                        if l4_index(w) != l4_index(va) {
                            assert(sn.entry4(w) == sc.entry4(w));
                        }
                    }
                    assert forall|w: u64|
                        !covers_slot(ranges@, w) implies #[trigger] sn.entry4(w) == s0.entry4(
                        w,
                    ) by {
                        lemma_index_bounds(w);
                        lemma_index_bounds(va);
                        if l4_index(w) == l4_index(va) {
                            assert(in_span(
                                va,
                                ranges@[k as int].start.addr_spec(),
                                ranges@[k as int].end.addr_spec(),
                                0x80_0000_0000u64,
                            ) && l4_index(va) == l4_index(w));
                            assert(covers_slot(ranges@, w));
                        } else {
                            assert(sn.entry4(w) == sc.entry4(w));
                        }
                    }
                    assert forall|w: u64|
                        Self::mappable(w) && #[trigger] sn.big_blocked(w) implies s0.big_blocked(
                        w,
                    ) by {
                        lemma_index_bounds(w);
                        lemma_index_bounds(va);
                        lemma_pte_zero();
                        if l4_index(w) == l4_index(va) {
                            assert(sn.entry4(w) == 0);
                            assert(false);
                        } else {
                            assert(sn.entry4(w) == sc.entry4(w));
                            if pte_present(sc.entry4(w)) {
                                sc.lemma_mappable_path(w);
                                assert(sn.entry3(w) == sc.entry3(w));
                                if pte_present(sc.entry3(w)) && !pte_huge(sc.entry3(w)) {
                                    assert(sn.entry2(w) == sc.entry2(w));
                                }
                            }
                            assert(sc.big_blocked(w));
                        }
                    }
                }
                va = va + s;
            }
            k = k + 1;
        }
        proof {
            lemma_pte_zero();
        }
    }

    /// Clearing a root-level entry outside the self- and side-map slots
    /// keeps the space well formed.
    proof fn lemma_root_clear_wf(self, s0: AddressSpace, i: int)
        requires
            s0.wf(),
            0 <= i < 510,
            self.root_spec() == s0.root_spec(),
            self.sets() == s0.sets(),
            forall|f2: u64| self.has_table(f2) <==> s0.has_table(f2),
            self.table(self.root_spec()) == s0.table(s0.root_spec()).update(i, 0u64),
            forall|f2: u64|
                f2 != s0.root_spec() ==> #[trigger] self.table(f2) == s0.table(f2),
        ensures
            self.wf(),
    {
        let g = s0.sets();
        lemma_pte_zero();
        assert forall|f2: u64| #[trigger] g.roots.contains(f2) implies self.table_ok(f2) by {
            assert(s0.table_ok(f2));
        }
        assert forall|f2: u64| #[trigger] g.l3s.contains(f2) implies self.table_ok(f2) by {
            assert(s0.table_ok(f2));
        }
        assert forall|f2: u64| #[trigger] g.l2s.contains(f2) implies self.table_ok(f2) by {
            assert(s0.table_ok(f2));
        }
        assert forall|f2: u64| #[trigger] g.l1s.contains(f2) implies self.table_ok(f2) by {
            assert(s0.table_ok(f2));
        }
        assert forall|f2: u64, j: int|
            g.roots.contains(f2) && 0 <= j < 512 implies self.root_entry_ok(
            #[trigger] self.table(f2)[j],
        ) by {
            assert(s0.root_entry_ok(s0.table(f2)[j]));
        }
        assert forall|j: int| 0 <= j < 510 implies self.root_entry_ok(
            #[trigger] self.table(self.root_spec())[j],
        ) by {
            assert(s0.root_entry_ok(s0.table(s0.root_spec())[j]));
        }
        assert forall|f2: u64, j: int|
            g.l3s.contains(f2) && 0 <= j < 512 implies Self::mid_entry_ok(
            #[trigger] self.table(f2)[j],
            g.l2s,
            0x4000_0000u64,
        ) by {
            assert(Self::mid_entry_ok(s0.table(f2)[j], g.l2s, 0x4000_0000u64));
        }
        assert forall|f2: u64, j: int|
            g.l2s.contains(f2) && 0 <= j < 512 implies Self::mid_entry_ok(
            #[trigger] self.table(f2)[j],
            g.l1s,
            0x20_0000u64,
        ) by {
            assert(Self::mid_entry_ok(s0.table(f2)[j], g.l1s, 0x20_0000u64));
        }
    }

    /// The root-level entry for `va` in the side-loaded space.
    pub open spec fn side_entry4(self, va: u64) -> u64 {
        self.table(pte_pfa(self.side_slot()))[l4_index(va)]
    }

    /// The L3 entry for `va` in the side-loaded space.
    pub open spec fn side_entry3(self, va: u64) -> u64 {
        self.table(pte_pfa(self.side_entry4(va)))[l3_index(va)]
    }

    /// The L2 entry for `va` in the side-loaded space.
    pub open spec fn side_entry2(self, va: u64) -> u64 {
        self.table(pte_pfa(self.side_entry3(va)))[l2_index(va)]
    }

    /// The leaf entry for `va` in the side-loaded space.
    pub open spec fn side_entry1(self, va: u64) -> u64 {
        self.table(pte_pfa(self.side_entry2(va)))[l1_index(va)]
    }

    /// What a walk of `va` through the side-loaded root yields: as
    /// [`Self::translate_spec`], but starting at the foreign root in
    /// slot 510; `None` when no space is side-loaded.
    pub open spec fn side_translate_spec(self, va: u64) -> Option<u64> {
        if !pte_present(self.side_slot()) {
            None
        } else if !pte_present(self.side_entry4(va)) {
            None
        } else if !pte_present(self.side_entry3(va)) {
            None
        } else if pte_huge(self.side_entry3(va)) {
            Some((pte_pfa(self.side_entry3(va)) + (va & 0x3FFF_FFFFu64)) as u64)
        } else if !pte_present(self.side_entry2(va)) {
            None
        } else if pte_huge(self.side_entry2(va)) {
            Some((pte_pfa(self.side_entry2(va)) + (va & 0x1F_FFFFu64)) as u64)
        } else if !pte_present(self.side_entry1(va)) {
            None
        } else {
            Some((pte_pfa(self.side_entry1(va)) + (va & 0xFFFu64)) as u64)
        }
    }

    /// The side walk of `va` ends in a big-page leaf.
    pub open spec fn side_big_blocked(self, va: u64) -> bool {
        &&& pte_present(self.side_entry4(va))
        &&& pte_present(self.side_entry3(va))
        &&& (pte_huge(self.side_entry3(va)) || (pte_present(self.side_entry2(va)) && pte_huge(
            self.side_entry2(va),
        )))
    }

    /// The side walk of `va` reaches a present leaf entry.
    pub open spec fn side_leaf_present(self, va: u64) -> bool {
        &&& pte_present(self.side_entry4(va))
        &&& pte_present(self.side_entry3(va))
        &&& !pte_huge(self.side_entry3(va))
        &&& pte_present(self.side_entry2(va))
        &&& !pte_huge(self.side_entry2(va))
        &&& pte_present(self.side_entry1(va))
    }

    /// Installing a leaf for `va` in the side space would overwrite an
    /// existing mapping there.
    pub open spec fn side_blocked(self, va: u64) -> bool {
        self.side_big_blocked(va) || self.side_leaf_present(va)
    }

    /// How many interior tables are missing along the side walk of
    /// `va`.
    pub open spec fn side_missing_tables(self, va: u64) -> int {
        if !pte_present(self.side_entry4(va)) {
            3
        } else if !pte_present(self.side_entry3(va)) {
            2
        } else if !pte_present(self.side_entry2(va)) {
            1
        } else {
            0
        }
    }

    /// Maps `hpf` at `va` in the side-loaded address space, as
    /// [`Self::map`] does in the current one: missing interior tables
    /// come from `supply` when `allow_alloc` is set, and the same
    /// failures are reported.  A space must be side-loaded.
    pub fn side_map(
        &mut self,
        hpf: crate::PF4K,
        flags: PTEFlags,
        va: crate::V4KA,
        supply: &mut FrameSupply,
        allow_alloc: bool,
    ) -> (r: Result<(), MapError>)
        requires
            old(self).wf(),
            old(supply).wf(),
            old(self).supply_fresh(*old(supply)),
            frame_addr_ok(hpf.pfa_spec().addr_spec()),
            pte_present(old(self).side_slot()),
        ensures
            final(self).wf(),
            final(supply).wf(),
            final(self).root_spec() == old(self).root_spec(),
            final(self).sets().roots == old(self).sets().roots,
            final(self).side_slot() == old(self).side_slot(),
            final(supply).end_spec() == old(supply).end_spec(),
            old(supply).next_spec() <= final(supply).next_spec(),
            final(self).supply_fresh(*final(supply)),
            r is Ok <==> (Self::mappable(va.addr_spec()) && !old(self).side_blocked(
                va.addr_spec(),
            ) && old(self).side_missing_tables(va.addr_spec()) <= (if allow_alloc {
                old(supply).avail()
            } else {
                0
            })),
            r == Err::<(), MapError>(MapError::ForbiddenRegion) <==> !Self::mappable(
                va.addr_spec(),
            ),
            r == Err::<(), MapError>(MapError::AlreadyMapped) <==> (Self::mappable(
                va.addr_spec(),
            ) && old(self).side_blocked(va.addr_spec())),
            r is Ok ==> {
                let vaa = va.addr_spec();
                let leaf = hpf.pfa_spec().addr_spec() | (flags & FLAGS_MASK);
                &&& pte_present(final(self).side_entry4(vaa)) && pte_write(
                    final(self).side_entry4(vaa),
                ) && !pte_huge(final(self).side_entry4(vaa))
                &&& pte_present(final(self).side_entry3(vaa)) && pte_write(
                    final(self).side_entry3(vaa),
                ) && !pte_huge(final(self).side_entry3(vaa))
                &&& pte_present(final(self).side_entry2(vaa)) && pte_write(
                    final(self).side_entry2(vaa),
                ) && !pte_huge(final(self).side_entry2(vaa))
                &&& final(self).side_entry1(vaa) == leaf
                &&& (pte_present(leaf) ==> forall|off: u64|
                    off < 4096 ==> #[trigger] final(self).side_translate_spec(
                        (vaa + off) as u64,
                    ) == Some((hpf.pfa_spec().addr_spec() + off) as u64))
            },
            (r == Err::<(), MapError>(MapError::AlreadyMapped) || r == Err::<(), MapError>(
                MapError::ForbiddenRegion,
            )) ==> *final(self) == *old(self) && *final(supply) == *old(supply),
            (!allow_alloc && !(r is Ok)) ==> *final(self) == *old(self) && *final(supply) == *old(
                supply,
            ),
    {
        proof {
            use_type_invariant(&va);
        }
        let vaa = va.addr();
        let i4 = idx4(vaa);
        if !(vaa < SIDE_BASE_ADDRESS_L1) || i4 == 510 || i4 == 511 {
            return Err(MapError::ForbiddenRegion);
        }
        proof {
            old(self).lemma_side_path(vaa);
        }
        let i3 = idx3(vaa);
        let i2 = idx2(vaa);
        let i1 = idx1(vaa);
        let slot = self.table_entry(self.root, 510);
        let sf = slot & PFA_MASK;
        let e4 = self.table_entry(sf, i4);
        let f3: u64;
        if e4 & PTE_PRESENT == PTE_PRESENT {
            f3 = e4 & PFA_MASK;
        } else {
            if !allow_alloc {
                return Err(MapError::AllocatorFailed);
            }
            match self.install_child_table(sf, i4, supply, Ghost(3int)) {
                Some(nf) => {
                    f3 = nf;
                    proof {
                        lemma_pte_zero();
                        lemma_pte_interior(nf);
                    }
                },
                None => {
                    return Err(MapError::AllocatorFailed);
                },
            }
        }
        let ghost sa = *self;
        proof {
            sa.lemma_side_path(vaa);
        }
        let e3 = self.table_entry(f3, i3);
        if e3 & PTE_PRESENT == PTE_PRESENT && e3 & PTE_HUGE == PTE_HUGE {
            return Err(MapError::AlreadyMapped);
        }
        let f2: u64;
        if e3 & PTE_PRESENT == PTE_PRESENT {
            f2 = e3 & PFA_MASK;
        } else {
            if !allow_alloc {
                return Err(MapError::AllocatorFailed);
            }
            match self.install_child_table(f3, i3, supply, Ghost(2int)) {
                Some(nf) => {
                    f2 = nf;
                    proof {
                        lemma_pte_zero();
                        lemma_pte_interior(nf);
                    }
                },
                None => {
                    proof {
                        lemma_pte_zero();
                        lemma_pte_interior(f3);
                    }
                    return Err(MapError::AllocatorFailed);
                },
            }
        }
        let ghost sb = *self;
        proof {
            sb.lemma_side_path(vaa);
        }
        let e2 = self.table_entry(f2, i2);
        if e2 & PTE_PRESENT == PTE_PRESENT && e2 & PTE_HUGE == PTE_HUGE {
            return Err(MapError::AlreadyMapped);
        }
        let f1: u64;
        if e2 & PTE_PRESENT == PTE_PRESENT {
            f1 = e2 & PFA_MASK;
        } else {
            if !allow_alloc {
                return Err(MapError::AllocatorFailed);
            }
            match self.install_child_table(f2, i2, supply, Ghost(1int)) {
                Some(nf) => {
                    f1 = nf;
                    proof {
                        lemma_pte_zero();
                        lemma_pte_interior(nf);
                    }
                },
                None => {
                    proof {
                        lemma_pte_zero();
                        lemma_pte_interior(f2);
                    }
                    return Err(MapError::AllocatorFailed);
                },
            }
        }
        let ghost sc = *self;
        proof {
            sc.lemma_side_path(vaa);
        }
        let e1 = self.table_entry(f1, i1);
        if e1 & PTE_PRESENT == PTE_PRESENT {
            return Err(MapError::AlreadyMapped);
        }
        let leaf = hpf.pfa().addr() | (flags & FLAGS_MASK);
        self.set_table_entry(f1, i1, leaf);
        proof {
            let s0 = *old(self);
            let s3 = *self;
            let g = sc.sets();
            lemma_pte_zero();
            lemma_pte_leaf(hpf.pfa_spec().addr_spec(), flags);
            assert forall|f2_: u64| #[trigger] g.roots.contains(f2_) implies s3.table_ok(f2_) by {
                assert(sc.table_ok(f2_));
            }
            assert forall|f2_: u64| #[trigger] g.l3s.contains(f2_) implies s3.table_ok(f2_) by {
                assert(sc.table_ok(f2_));
            }
            assert forall|f2_: u64| #[trigger] g.l2s.contains(f2_) implies s3.table_ok(f2_) by {
                assert(sc.table_ok(f2_));
            }
            assert forall|f2_: u64| #[trigger] g.l1s.contains(f2_) implies s3.table_ok(f2_) by {
                assert(sc.table_ok(f2_));
            }
            assert forall|f2_: u64, j: int|
                g.roots.contains(f2_) && 0 <= j < 512 implies s3.root_entry_ok(
                #[trigger] s3.table(f2_)[j],
            ) by {
                assert(sc.root_entry_ok(sc.table(f2_)[j]));
            }
            assert forall|j: int| 0 <= j < 510 implies s3.root_entry_ok(
                #[trigger] s3.table(s3.root_spec())[j],
            ) by {
                assert(sc.root_entry_ok(sc.table(sc.root_spec())[j]));
            }
            assert forall|f2_: u64, j: int|
                g.l3s.contains(f2_) && 0 <= j < 512 implies Self::mid_entry_ok(
                #[trigger] s3.table(f2_)[j],
                g.l2s,
                0x4000_0000u64,
            ) by {
                assert(Self::mid_entry_ok(sc.table(f2_)[j], g.l2s, 0x4000_0000u64));
            }
            assert forall|f2_: u64, j: int|
                g.l2s.contains(f2_) && 0 <= j < 512 implies Self::mid_entry_ok(
                #[trigger] s3.table(f2_)[j],
                g.l1s,
                0x20_0000u64,
            ) by {
                assert(Self::mid_entry_ok(sc.table(f2_)[j], g.l1s, 0x20_0000u64));
            }
            assert(s3.wf());
            let vaa_ = va.addr_spec();
            let leaf_ = hpf.pfa_spec().addr_spec() | (flags & FLAGS_MASK);
            assert(s3.side_slot() == sc.side_slot());
            assert(s3.side_entry4(vaa_) == sc.side_entry4(vaa_));
            assert(s3.side_entry3(vaa_) == sc.side_entry3(vaa_));
            assert(s3.side_entry2(vaa_) == sc.side_entry2(vaa_));
            assert(s3.side_entry1(vaa_) == leaf_);
            assert forall|off: u64| off < 4096 implies {
                &&& #[trigger] s3.side_entry4((vaa_ + off) as u64) == s3.side_entry4(vaa_)
                &&& s3.side_entry3((vaa_ + off) as u64) == s3.side_entry3(vaa_)
                &&& s3.side_entry2((vaa_ + off) as u64) == s3.side_entry2(vaa_)
                &&& s3.side_entry1((vaa_ + off) as u64) == s3.side_entry1(vaa_)
                &&& ((vaa_ + off) as u64) & 0xFFFu64 == off
            } by {
                lemma_page_offset(vaa_, off);
            }
        }
        Ok(())
    }

    /// Unmaps a side-loaded region by clearing the covered root-level
    /// entries of the side space; the subtrees below stay live.
    pub fn unmap_side_root_ranges(&mut self, ranges: &Vec<VRange>)
        requires
            old(self).wf(),
            pte_present(old(self).side_slot()),
            forall|k: int|
                0 <= k < ranges@.len() ==> ranges@[k].end.addr_spec() <= SIDE_BASE_ADDRESS_L1,
            forall|k: int, w: u64|
                0 <= k < ranges@.len() && #[trigger] in_span(
                    w,
                    ranges@[k].start.addr_spec(),
                    ranges@[k].end.addr_spec(),
                    0x80_0000_0000u64,
                ) ==> Self::mappable(w),
        ensures
            final(self).wf(),
            final(self).root_spec() == old(self).root_spec(),
            final(self).sets() == old(self).sets(),
            final(self).side_slot() == old(self).side_slot(),
            forall|f2: u64| final(self).has_table(f2) <==> old(self).has_table(f2),
            forall|k: int, w: u64|
                0 <= k < ranges@.len() && #[trigger] in_span(
                    w,
                    ranges@[k].start.addr_spec(),
                    ranges@[k].end.addr_spec(),
                    0x80_0000_0000u64,
                ) ==> final(self).side_entry4(w) == 0 && final(self).side_translate_spec(
                    w,
                ) is None,
    {
        let slot = self.table_entry(self.root, 510);
        let sf = slot & PFA_MASK;
        proof {
            let s = *self;
            assert(s.table_ok(sf));
            assert(sf != s.root_spec());
        }
        let ghost s0 = *self;
        let n = ranges.len();
        let mut k: usize = 0;
        while k < n
            invariant
                s0 == *old(self),
                s0.wf(),
                n == ranges@.len(),
                k <= n,
                sf == pte_pfa(s0.side_slot()),
                s0.sets().roots.contains(sf),
                sf != s0.root_spec(),
                self.wf(),
                self.root_spec() == s0.root_spec(),
                self.sets() == s0.sets(),
                self.side_slot() == s0.side_slot(),
                forall|f2: u64| self.has_table(f2) <==> s0.has_table(f2),
                forall|f2: u64| f2 != sf ==> #[trigger] self.table(f2) == s0.table(f2),
                forall|k2: int|
                    0 <= k2 < ranges@.len() ==> ranges@[k2].end.addr_spec()
                        <= SIDE_BASE_ADDRESS_L1,
                forall|k2: int, w: u64|
                    0 <= k2 < ranges@.len() && #[trigger] in_span(
                        w,
                        ranges@[k2].start.addr_spec(),
                        ranges@[k2].end.addr_spec(),
                        0x80_0000_0000u64,
                    ) ==> Self::mappable(w),
                forall|k2: int, w: u64|
                    0 <= k2 < k && #[trigger] in_span(
                        w,
                        ranges@[k2].start.addr_spec(),
                        ranges@[k2].end.addr_spec(),
                        0x80_0000_0000u64,
                    ) ==> self.side_entry4(w) == 0,
            decreases n - k,
        {
            let range = ranges[k];
            let start = range.start.addr();
            let end = range.end.addr();
            let s: u64 = 0x80_0000_0000;
            let lo = start - start % s;
            let mut va = lo;
            while va < end
                invariant
                    s0 == *old(self),
                    s0.wf(),
                    n == ranges@.len(),
                    k < n,
                    range == ranges@[k as int],
                    start == range.start.addr_spec(),
                    end == range.end.addr_spec(),
                    end <= SIDE_BASE_ADDRESS_L1,
                    sf == pte_pfa(s0.side_slot()),
                    s0.sets().roots.contains(sf),
                    sf != s0.root_spec(),
                    self.wf(),
                    self.root_spec() == s0.root_spec(),
                    self.sets() == s0.sets(),
                    self.side_slot() == s0.side_slot(),
                    forall|f2: u64| self.has_table(f2) <==> s0.has_table(f2),
                    forall|f2: u64| f2 != sf ==> #[trigger] self.table(f2) == s0.table(f2),
                    forall|k2: int|
                        0 <= k2 < ranges@.len() ==> ranges@[k2].end.addr_spec()
                            <= SIDE_BASE_ADDRESS_L1,
                    forall|k2: int, w: u64|
                        0 <= k2 < ranges@.len() && #[trigger] in_span(
                            w,
                            ranges@[k2].start.addr_spec(),
                            ranges@[k2].end.addr_spec(),
                            0x80_0000_0000u64,
                        ) ==> Self::mappable(w),
                    forall|k2: int, w: u64|
                        0 <= k2 < k && #[trigger] in_span(
                            w,
                            ranges@[k2].start.addr_spec(),
                            ranges@[k2].end.addr_spec(),
                            0x80_0000_0000u64,
                        ) ==> self.side_entry4(w) == 0,
                    forall|w: u64|
                        in_span(w, start, end, 0x80_0000_0000u64) && w - w % 0x80_0000_0000u64
                            < va ==> #[trigger] self.side_entry4(w) == 0,
                    va % s == 0,
                    lo <= va,
                    lo == start - start % s,
                    s == 0x80_0000_0000u64,
                decreases end + s - va,
            {
                proof {
                    vstd::arithmetic::div_mod::lemma_mod_bound(va as int, s as int);
                    vstd::arithmetic::div_mod::lemma_small_mod(0nat, s as nat);
                    assert(in_span(
                        va,
                        ranges@[k as int].start.addr_spec(),
                        ranges@[k as int].end.addr_spec(),
                        0x80_0000_0000u64,
                    ));
                    assert(Self::mappable(va));
                    lemma_index_bounds(va);
                }
                let i4 = idx4(va);
                let ghost sc = *self;
                self.set_table_entry(sf, i4, 0);
                proof {
                    lemma_pte_zero();
                    self.lemma_foreign_clear_wf(sc, sf, i4 as int);
                    let sn = *self;
                    assert forall|w: u64|
                        in_span(w, start, end, s) && w - w % s < va + s implies #[trigger] sn.side_entry4(
                        w,
                    ) == 0 by {
                        lemma_index_bounds(w);
                        lemma_index_bounds(va);
                        vstd::arithmetic::div_mod::lemma_mod_bound(w as int, s as int);
                        if w - w % s < va {
                            if l4_index(w) != l4_index(va) {
                                assert(sn.side_entry4(w) == sc.side_entry4(w));
                            }
                        } else {
                            let off = (w - va) as u64;
                            lemma_block_offset_512(va, off);
                            assert(w == va + off);
                            assert(sn.side_entry4(w) == sn.side_entry4(va));
                        }
                    }
                    assert forall|k2: int, w: u64|
                        0 <= k2 < k && #[trigger] in_span(
                            w,
                            ranges@[k2].start.addr_spec(),
                            ranges@[k2].end.addr_spec(),
                            0x80_0000_0000u64,
                        ) implies sn.side_entry4(w) == 0 by {
                        lemma_index_bounds(w);
                        lemma_index_bounds(va);
                        if l4_index(w) != l4_index(va) {
                            assert(sn.side_entry4(w) == sc.side_entry4(w));
                        }
                    }
                }
                va = va + s;
            }
            k = k + 1;
        }
        proof {
            lemma_pte_zero();
        }
    }

    /// Clearing an entry of a foreign root keeps the space well formed.
    proof fn lemma_foreign_clear_wf(self, s0: AddressSpace, sf: u64, i: int)
        requires
            s0.wf(),
            s0.sets().roots.contains(sf),
            0 <= i < 512,
            self.root_spec() == s0.root_spec(),
            self.sets() == s0.sets(),
            forall|f2: u64| self.has_table(f2) <==> s0.has_table(f2),
            self.table(sf) == s0.table(sf).update(i, 0u64),
            forall|f2: u64| f2 != sf ==> #[trigger] self.table(f2) == s0.table(f2),
        ensures
            self.wf(),
    {
        let g = s0.sets();
        lemma_pte_zero();
        assert forall|f2: u64| #[trigger] g.roots.contains(f2) implies self.table_ok(f2) by {
            assert(s0.table_ok(f2));
        }
        assert forall|f2: u64| #[trigger] g.l3s.contains(f2) implies self.table_ok(f2) by {
            assert(s0.table_ok(f2));
        }
        assert forall|f2: u64| #[trigger] g.l2s.contains(f2) implies self.table_ok(f2) by {
            assert(s0.table_ok(f2));
        }
        assert forall|f2: u64| #[trigger] g.l1s.contains(f2) implies self.table_ok(f2) by {
            assert(s0.table_ok(f2));
        }
        assert forall|f2: u64, j: int|
            g.roots.contains(f2) && 0 <= j < 512 implies self.root_entry_ok(
            #[trigger] self.table(f2)[j],
        ) by {
            assert(s0.root_entry_ok(s0.table(f2)[j]));
        }
        assert forall|j: int| 0 <= j < 510 implies self.root_entry_ok(
            #[trigger] self.table(self.root_spec())[j],
        ) by {
            assert(s0.root_entry_ok(s0.table(s0.root_spec())[j]));
        }
        assert forall|f2: u64, j: int|
            g.l3s.contains(f2) && 0 <= j < 512 implies Self::mid_entry_ok(
            #[trigger] self.table(f2)[j],
            g.l2s,
            0x4000_0000u64,
        ) by {
            assert(Self::mid_entry_ok(s0.table(f2)[j], g.l2s, 0x4000_0000u64));
        }
        assert forall|f2: u64, j: int|
            g.l2s.contains(f2) && 0 <= j < 512 implies Self::mid_entry_ok(
            #[trigger] self.table(f2)[j],
            g.l1s,
            0x20_0000u64,
        ) by {
            assert(Self::mid_entry_ok(s0.table(f2)[j], g.l1s, 0x20_0000u64));
        }
    }

    /// The frames a side walk of an address outside the map windows
    /// passes through are tables, one level down per step.
    pub proof fn lemma_side_path(self, va: u64)
        requires
            self.wf(),
            Self::mappable(va),
            pte_present(self.side_slot()),
        ensures
            self.table_ok(pte_pfa(self.side_slot())),
            pte_present(self.side_entry4(va)) ==> {
                &&& self.sets().l3s.contains(pte_pfa(self.side_entry4(va)))
                &&& !pte_huge(self.side_entry4(va))
                &&& self.table_ok(pte_pfa(self.side_entry4(va)))
            },
            (pte_present(self.side_entry4(va)) && pte_present(self.side_entry3(va)) && !pte_huge(
                self.side_entry3(va),
            )) ==> {
                &&& self.sets().l2s.contains(pte_pfa(self.side_entry3(va)))
                &&& self.table_ok(pte_pfa(self.side_entry3(va)))
            },
            (pte_present(self.side_entry4(va)) && pte_present(self.side_entry3(va)) && !pte_huge(
                self.side_entry3(va),
            ) && pte_present(self.side_entry2(va)) && !pte_huge(self.side_entry2(va))) ==> {
                &&& self.sets().l1s.contains(pte_pfa(self.side_entry2(va)))
                &&& self.table_ok(pte_pfa(self.side_entry2(va)))
            },
    {
        lemma_index_bounds(va);
    }

    /// Translates `va` against the side-loaded address space.  Returns
    /// `None` when no space is side-loaded or the foreign walk misses.
    pub fn side_translate(&self, va: u64) -> (r: Option<crate::HPA>)
        requires
            self.wf(),
            Self::mappable(va),
        ensures
            match r {
                Some(h) => self.side_translate_spec(va) == Some(h.addr_spec()),
                None => self.side_translate_spec(va) is None,
            },
    {
        let slot = self.table_entry(self.root, 510);
        if slot & PTE_PRESENT != PTE_PRESENT {
            return None;
        }
        proof {
            self.lemma_side_path(va);
        }
        let e4 = self.table_entry(slot & PFA_MASK, idx4(va));
        if e4 & PTE_PRESENT != PTE_PRESENT {
            return None;
        }
        let e3 = self.table_entry(e4 & PFA_MASK, idx3(va));
        if e3 & PTE_PRESENT != PTE_PRESENT {
            return None;
        }
        if e3 & PTE_HUGE == PTE_HUGE {
            proof {
                let x = e3;
                let w = va;
                assert(x & 0x0000_7FFF_FFFF_F000u64 <= 0x0000_7FFF_FFFF_F000u64 && w
                    & 0x3FFF_FFFFu64 <= 0x3FFF_FFFFu64) by (bit_vector);
            }
            return Some(crate::HPA::new((e3 & PFA_MASK) + (va & 0x3FFF_FFFF)));
        }
        let e2 = self.table_entry(e3 & PFA_MASK, idx2(va));
        if e2 & PTE_PRESENT != PTE_PRESENT {
            return None;
        }
        if e2 & PTE_HUGE == PTE_HUGE {
            proof {
                let x = e2;
                let w = va;
                assert(x & 0x0000_7FFF_FFFF_F000u64 <= 0x0000_7FFF_FFFF_F000u64 && w
                    & 0x1F_FFFFu64 <= 0x1F_FFFFu64) by (bit_vector);
            }
            return Some(crate::HPA::new((e2 & PFA_MASK) + (va & 0x1F_FFFF)));
        }
        let e1 = self.table_entry(e2 & PFA_MASK, idx1(va));
        if e1 & PTE_PRESENT != PTE_PRESENT {
            return None;
        }
        proof {
            let x = e1;
            let w = va;
            assert(x & 0x0000_7FFF_FFFF_F000u64 <= 0x0000_7FFF_FFFF_F000u64 && w & 0xFFFu64
                <= 0xFFFu64) by (bit_vector);
        }
        Some(crate::HPA::new((e1 & PFA_MASK) + (va & 0xFFF)))
    }

    /// Translates `va` in this space to a host physical address.
    pub fn translate(&self, va: u64) -> (r: Option<crate::HPA>)
        requires
            self.wf(),
        ensures
            match r {
                Some(h) => self.translate_spec(va) == Some(h.addr_spec()),
                None => self.translate_spec(va) is None,
            },
    {
        let e4 = self.table_entry(self.root, idx4(va));
        if e4 & PTE_PRESENT != PTE_PRESENT {
            return None;
        }
        proof {
            self.lemma_l4_step(va);
        }
        let e3 = self.table_entry(e4 & PFA_MASK, idx3(va));
        if e3 & PTE_PRESENT != PTE_PRESENT {
            return None;
        }
        if e3 & PTE_HUGE == PTE_HUGE {
            proof {
                let x = e3;
                let v = va;
                assert(x & 0x0000_7FFF_FFFF_F000u64 <= 0x0000_7FFF_FFFF_F000u64 && v
                    & 0x3FFF_FFFFu64 <= 0x3FFF_FFFFu64) by (bit_vector);
            }
            return Some(crate::HPA::new((e3 & PFA_MASK) + (va & 0x3FFF_FFFF)));
        }
        proof {
            self.lemma_l3_step(va);
        }
        let e2 = self.table_entry(e3 & PFA_MASK, idx2(va));
        if e2 & PTE_PRESENT != PTE_PRESENT {
            return None;
        }
        if e2 & PTE_HUGE == PTE_HUGE {
            proof {
                let x = e2;
                let v = va;
                assert(x & 0x0000_7FFF_FFFF_F000u64 <= 0x0000_7FFF_FFFF_F000u64 && v
                    & 0x1F_FFFFu64 <= 0x1F_FFFFu64) by (bit_vector);
            }
            return Some(crate::HPA::new((e2 & PFA_MASK) + (va & 0x1F_FFFF)));
        }
        proof {
            self.lemma_l2_step(va);
        }
        let e1 = self.table_entry(e2 & PFA_MASK, idx1(va));
        if e1 & PTE_PRESENT != PTE_PRESENT {
            return None;
        }
        proof {
            let x = e1;
            let v = va;
            assert(x & 0x0000_7FFF_FFFF_F000u64 <= 0x0000_7FFF_FFFF_F000u64 && v & 0xFFFu64
                <= 0xFFFu64) by (bit_vector);
        }
        Some(crate::HPA::new((e1 & PFA_MASK) + (va & 0xFFF)))
    }
}


/// Marks a scope after which the translation caches of the local
/// processor must be flushed; the flush itself is a privileged hardware
/// operation performed by the embedding program when the guard is
/// dropped.
pub struct TLBFlushGuard {}

impl TLBFlushGuard {
    /// A new flush guard.
    pub fn new() -> TLBFlushGuard {
        TLBFlushGuard {  }
    }
}

/// A walk ending in a big-page leaf at level 3 translates to an address
/// whose low 30 bits come from the virtual address, and one ending at
/// level 2 to an address whose low 21 bits do; in both cases the HUGE
/// flag of the terminating entry is set.
pub proof fn lemma_translate_big(s: AddressSpace, va: u64)
    requires
        s.wf(),
        AddressSpace::mappable(va),
        pte_present(s.entry4(va)),
        pte_present(s.entry3(va)),
    ensures
        pte_huge(s.entry3(va)) ==> {
            &&& s.translate_spec(va) == Some(
                (pte_pfa(s.entry3(va)) + (va & 0x3FFF_FFFFu64)) as u64,
            )
            &&& s.translate_spec(va).unwrap() as int % 0x4000_0000 == va as int % 0x4000_0000
        },
        (!pte_huge(s.entry3(va)) && pte_present(s.entry2(va)) && pte_huge(s.entry2(va))) ==> {
            &&& s.translate_spec(va) == Some(
                (pte_pfa(s.entry2(va)) + (va & 0x1F_FFFFu64)) as u64,
            )
            &&& s.translate_spec(va).unwrap() as int % 0x20_0000 == va as int % 0x20_0000
        },
{
    lemma_index_bounds(va);
    s.lemma_mappable_path(va);
    if pte_huge(s.entry3(va)) {
        let e = s.entry3(va);
        let p = pte_pfa(e);
        let x = va;
        let y = x & 0x3FFF_FFFFu64;
        assert(p % 0x4000_0000 == 0);
        assert((e & 0x0000_7FFF_FFFF_F000u64) <= 0x0000_7FFF_FFFF_F000u64 && x
            & 0x3FFF_FFFFu64 == x % 0x4000_0000u64 && x & 0x3FFF_FFFFu64 < 0x4000_0000u64)
            by (bit_vector);
        vstd::arithmetic::div_mod::lemma_fundamental_div_mod(p as int, 0x4000_0000);
        vstd::arithmetic::div_mod::lemma_mod_multiples_vanish(
            p as int / 0x4000_0000,
            y as int,
            0x4000_0000,
        );
        vstd::arithmetic::div_mod::lemma_small_mod(y as nat, 0x4000_0000nat);
        assert((p + y) as u64 == p + y);
        assert((p + y) % 0x4000_0000 == y);
    } else if pte_present(s.entry2(va)) && pte_huge(s.entry2(va)) {
        let e = s.entry2(va);
        let p = pte_pfa(e);
        let x = va;
        let y = x & 0x1F_FFFFu64;
        assert(p % 0x20_0000 == 0);
        assert((e & 0x0000_7FFF_FFFF_F000u64) <= 0x0000_7FFF_FFFF_F000u64 && x & 0x1F_FFFFu64
            == x % 0x20_0000u64 && x & 0x1F_FFFFu64 < 0x20_0000u64) by (bit_vector);
        vstd::arithmetic::div_mod::lemma_fundamental_div_mod(p as int, 0x20_0000);
        vstd::arithmetic::div_mod::lemma_mod_multiples_vanish(
            p as int / 0x20_0000,
            y as int,
            0x20_0000,
        );
        vstd::arithmetic::div_mod::lemma_small_mod(y as nat, 0x20_0000nat);
        assert((p + y) as u64 == p + y);
        assert((p + y) % 0x20_0000 == y);
    }
}

/// Every address a successful map call accepts lies outside all eight
/// self- and side-map windows.
pub proof fn lemma_mappable_outside_windows(va: u64)
    requires
        AddressSpace::mappable(va),
    ensures
        !(SIDE_BASE_ADDRESS_L1 <= va),
        !(BASE_ADDRESS_L1 <= va < BASE_ADDRESS_L1 + 0x80_0000_0000),
        !(SIDE_BASE_ADDRESS_L2 <= va < SIDE_BASE_ADDRESS_L2 + 0x4000_0000),
        !(BASE_ADDRESS_L2 <= va < BASE_ADDRESS_L2 + 0x4000_0000),
        !(SIDE_BASE_ADDRESS_L3 <= va < SIDE_BASE_ADDRESS_L3 + 0x20_0000),
        !(BASE_ADDRESS_L3 <= va < BASE_ADDRESS_L3 + 0x20_0000),
        !(SIDE_BASE_ADDRESS_L4 <= va < SIDE_BASE_ADDRESS_L4 + 0x1000),
        !(BASE_ADDRESS_L4 <= va < BASE_ADDRESS_L4 + 0x1000),
{
}

/// Loading a foreign root into the side slot and then unloading it
/// hands the same root back and leaves slot 510 empty.
pub proof fn lemma_side_load_round_trip(
    s0: AddressSpace,
    s1: AddressSpace,
    s2: AddressSpace,
    pf: crate::PF4K,
    ret: crate::PF4K,
)
    requires
        s0.wf(),
        s0.sets().roots.contains(pf.pfa_spec().addr_spec()),
        // the state after side_load(pf)
        s1.root_spec() == s0.root_spec(),
        s1.table(s1.root_spec()) == s0.table(s0.root_spec()).update(
            510,
            pf.pfa_spec().addr_spec() | 3u64,
        ),
        // the state and result after unload_side()
        s2.table(s2.root_spec()) == s1.table(s1.root_spec()).update(510, 0u64),
        s2.root_spec() == s1.root_spec(),
        ret.pfa_spec().addr_spec() == pte_pfa(s1.side_slot()),
    ensures
        ret == pf,
        s2.side_slot() == 0,
{
    assert(s0.table_ok(pf.pfa_spec().addr_spec()));
    lemma_pte_interior(pf.pfa_spec().addr_spec());
    assert(s1.side_slot() == pf.pfa_spec().addr_spec() | 3u64);
    assert(ret.pfa_spec().addr_spec() == pf.pfa_spec().addr_spec());
    assert(ret.pfa_spec() == pf.pfa_spec());
}


/// Where the side-loaded root shares `va`'s root-level entry with the
/// current root, both walks read the same tables below, so the two
/// spaces translate `va` identically.
pub proof fn lemma_shared_walk(s: AddressSpace, va: u64)
    requires
        s.wf(),
        AddressSpace::mappable(va),
        pte_present(s.side_slot()),
        s.side_entry4(va) == s.entry4(va),
    ensures
        s.side_translate_spec(va) == s.translate_spec(va),
{
    lemma_index_bounds(va);
}

} // verus!
