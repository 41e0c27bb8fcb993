//! Physical memory region descriptors, as gathered from the boot
//! loader's inventory.

use vstd::prelude::*;

verus! {

/// What a region of physical memory is used for.
#[derive(Clone, Copy, Debug, PartialEq, Eq, Structural)]
pub enum MemType {
    Reserved,
    RAM,
    Loader,
    Module,
    ACPI,
    NonVolatile,
    Defective,
}

/// A half-open region `[start, end)` of physical memory.
#[derive(Clone, Copy, Debug, PartialEq, Eq, Structural)]
pub struct Region {
    /// First byte of the region.
    pub start: u64,
    /// One past the last byte of the region.
    pub end: u64,
    /// What the region holds.
    pub typ: MemType,
}

/// The order two regions sort in: descending by start, then descending
/// by end.
#[derive(Clone, Copy, Debug, PartialEq, Eq, Structural)]
pub enum RegionOrder {
    Before,
    Same,
    After,
}

impl Region {
    /// Compares two regions for sorting, descending by start address
    /// and then by end address.
    pub fn cmp(a: &Region, b: &Region) -> (r: RegionOrder)
        ensures
            r == RegionOrder::Before <==> (b.start < a.start || (b.start == a.start && b.end
                < a.end)),
            r == RegionOrder::Same <==> (b.start == a.start && b.end == a.end),
    {
        if b.start < a.start {
            RegionOrder::Before
        } else if b.start > a.start {
            RegionOrder::After
        } else if b.end < a.end {
            RegionOrder::Before
        } else if b.end > a.end {
            RegionOrder::After
        } else {
            RegionOrder::Same
        }
    }
}

/// True when some RAM region contains the whole of `[start, end)`.
pub fn ram_covers(regions: &Vec<Region>, start: u64, end: u64) -> (r: bool)
    ensures
        r == exists|i: int|
            0 <= i < regions@.len() && #[trigger] regions@[i].typ == MemType::RAM
                && regions@[i].start <= start && end <= regions@[i].end,
{
    let mut i: usize = 0;
    while i < regions.len()
        invariant
            i <= regions@.len(),
            forall|j: int|
                0 <= j < i ==> !(#[trigger] regions@[j].typ == MemType::RAM && regions@[j].start
                    <= start && end <= regions@[j].end),
        decreases regions@.len() - i,
    {
        let rg = regions[i];
        if matches!(rg.typ, MemType::RAM) && rg.start <= start && end <= rg.end {
            return true;
        }
        i = i + 1;
    }
    false
}

/// `a` sorts at or before `b`: ascending by start, then by end.
pub open spec fn region_le(a: Region, b: Region) -> bool {
    a.start < b.start || (a.start == b.start && a.end <= b.end)
}

/// `r` lies inside `s` and is of the same kind.
pub open spec fn region_within(r: Region, s: Region) -> bool {
    s.start <= r.start && r.end <= s.end && r.typ == s.typ
}

/// Splits a region list into non-overlapping pieces.  A later entry
/// takes priority over the bytes it shares with an earlier one: the
/// earlier region keeps only what lies outside it.  The boot inventory
/// comes first, then the loader's own region and the modules', sorted
/// as [`Region::cmp`] orders them.  The result is ascending and
/// non-overlapping, and every piece lies inside some input region,
/// with its kind.
#[verifier::rlimit(100)]
pub fn fix_overlap(regions: &Vec<Region>) -> (out: Vec<Region>)
    requires
        regions@.len() > 0,
        forall|i: int| 0 <= i < regions@.len() ==> (#[trigger] regions@[i]).start
            <= regions@[i].end,
    ensures
        out@.len() > 0,
        forall|i: int| 0 <= i < out@.len() ==> (#[trigger] out@[i]).start <= out@[i].end,
        forall|i: int|
            0 <= i < out@.len() - 1 ==> (#[trigger] out@[i]).end <= out@[i + 1].start,
        forall|j: int|
            #![trigger out@[j]]
            0 <= j < out@.len() ==> exists|i: int|
                #![trigger regions@[i]]
                0 <= i < regions@.len() && region_within(out@[j], regions@[i]),
{
    let mut out: Vec<Region> = Vec::new();
    let mut prev = regions[0];
    let ghost mut gi: int = 0;
    let mut i: usize = 1;
    while i < regions.len()
        invariant
            1 <= i <= regions@.len(),
            regions@.len() > 0,
            forall|i2: int|
                0 <= i2 < regions@.len() ==> (#[trigger] regions@[i2]).start <= regions@[
                    i2].end,
            prev.start <= prev.end,
            0 <= gi < regions@.len(),
            region_within(prev, regions@[gi]),
            forall|i2: int|
                0 <= i2 < out@.len() ==> (#[trigger] out@[i2]).start <= out@[i2].end,
            forall|i2: int|
                0 <= i2 < out@.len() - 1 ==> (#[trigger] out@[i2]).end <= out@[i2 + 1].start,
            out@.len() > 0 ==> out@.last().end <= prev.start,
            forall|j: int|
                #![trigger out@[j]]
                0 <= j < out@.len() ==> exists|i2: int|
                    #![trigger regions@[i2]]
                    0 <= i2 < regions@.len() && region_within(out@[j], regions@[i2]),
        decreases regions@.len() - i,
    {
        let mut region = regions[i];
        proof {
            assert(region_within(prev, regions@[gi]));
        }
        if prev.start == region.start && prev.end < region.end {
            // the longer same-start region wins the tail
            region.start = prev.end;
            out.push(prev);
            prev = region;
            proof {
                gi = i as int;
                assert(region_within(prev, regions@[gi]));
            }
        } else if region.start < prev.end {
            // the later region carves into the earlier one
            if region.end <= prev.start {
                // nothing of it lies past what is already produced
            } else {
                if prev.start < region.start {
                    out.push(Region { start: prev.start, end: region.start, typ: prev.typ });
                    proof {
                        assert(region_within(out@.last(), regions@[gi]));
                    }
                }
                let ns = if region.start > prev.start {
                    region.start
                } else {
                    prev.start
                };
                if region.end < prev.end {
                    out.push(Region { start: ns, end: region.end, typ: region.typ });
                    prev = Region { start: region.end, end: prev.end, typ: prev.typ };
                    proof {
                        assert(region_within(out@.last(), regions@[i as int]));
                        assert(region_within(prev, regions@[gi]));
                    }
                } else {
                    prev = Region { start: ns, end: region.end, typ: region.typ };
                    proof {
                        gi = i as int;
                        assert(region_within(prev, regions@[gi]));
                    }
                }
            }
        } else {
            out.push(prev);
            prev = region;
            proof {
                gi = i as int;
                assert(region_within(prev, regions@[gi]));
            }
        }
        i = i + 1;
    }
    out.push(prev);
    out
}

} // verus!
