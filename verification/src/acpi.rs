//! ACPI table parsing: the shared table header, its checksum, and the
//! multiple-APIC description table that yields the CPU inventory.

use vstd::prelude::*;

verus! {

/// The ACPI checksum of a byte sequence: the bytes summed modulo 256.
pub open spec fn checksum_spec(iv: u8, bs: Seq<u8>) -> u8
    decreases bs.len(),
{
    if bs.len() == 0 {
        iv
    } else {
        ((checksum_spec(iv, bs.drop_last()) + bs.last()) % 256) as u8
    }
}

/// The ACPI checksum function: sums bytes with wrap-around.
pub fn checksum(iv: u8, bs: &Vec<u8>) -> (r: u8)
    ensures
        r == checksum_spec(iv, bs@),
{
    let mut sum = iv;
    let mut i: usize = 0;
    while i < bs.len()
        invariant
            i <= bs@.len(),
            sum == checksum_spec(iv, bs@.take(i as int)),
        decreases bs@.len() - i,
    {
        let b = bs[i];
        sum = ((sum as u16 + b as u16) % 256) as u8;
        proof {
            assert(bs@.take(i + 1).drop_last() =~= bs@.take(i as int));
            assert(bs@.take(i + 1).last() == bs@[i as int]);
        }
        i = i + 1;
    }
    proof {
        assert(bs@.take(bs@.len() as int) =~= bs@);
    }
    sum
}

/// The common header every ACPI table but the RSDP begins with.
#[derive(Clone, Copy, Debug)]
pub struct Header {
    /// Four-character table signature.
    pub signature: [u8; 4],
    /// Length of the whole table, header included.
    pub length: u32,
    /// Table revision.
    pub revision: u8,
    /// The byte making the whole table sum to zero.
    pub checksum: u8,
}

/// The size in bytes of the full on-disk header layout.
pub const HEADER_SIZE: u64 = 36;

impl Header {
    /// Reads the header fields out of a table image.
    pub fn parse(bs: &Vec<u8>) -> (r: Option<Header>)
        ensures
            match r {
                Some(h) => {
                    &&& bs@.len() >= 36
                    &&& h.signature@ == bs@.take(4)
                    &&& h.length == bs@[4] as u32 | (bs@[5] as u32) << 8 | (bs@[6] as u32) << 16
                        | (bs@[7] as u32) << 24
                    &&& h.revision == bs@[8]
                    &&& h.checksum == bs@[9]
                },
                None => bs@.len() < 36,
            },
    {
        if bs.len() < 36 {
            return None;
        }
        let signature = [bs[0], bs[1], bs[2], bs[3]];
        let length = bs[4] as u32 | (bs[5] as u32) << 8 | (bs[6] as u32) << 16 | (bs[7]
            as u32) << 24;
        proof {
            assert(signature@ =~= bs@.take(4));
        }
        Some(Header { signature, length, revision: bs[8], checksum: bs[9] })
    }

    /// The length of the table this header announces.
    pub fn len(&self) -> (r: u64)
        ensures
            r == self.length,
    {
        self.length as u64
    }
}

/// A table is sound when all its bytes sum to zero.
pub fn table_sound(bs: &Vec<u8>) -> (r: bool)
    ensures
        r == (checksum_spec(0, bs@) == 0),
{
    checksum(0, bs) == 0
}

/// One processor found in the MADT.
#[derive(Clone, Copy, Debug, PartialEq, Eq, Structural)]
pub struct MadtCpu {
    /// The processor's APIC ID.
    pub id: u32,
    /// Whether the entry came from an x2APIC record.
    pub extended: bool,
}

/// The processor a local-APIC record at `k` yields, if it is usable:
/// enabled or online-capable, and not the broadcast ID.
pub open spec fn lapic_cpu(data: Seq<u8>, k: int) -> Option<MadtCpu> {
    let id = data[k + 3] as u32;
    let flags = data[k + 4] as u32 | (data[k + 5] as u32) << 8;
    if (flags & 3 != 0) && id != 0xFF {
        Some(MadtCpu { id, extended: false })
    } else {
        None
    }
}

/// The processor an x2APIC record at `k` yields, if it is usable.
pub open spec fn x2apic_cpu(data: Seq<u8>, k: int) -> Option<MadtCpu> {
    let id = data[k + 4] as u32 | (data[k + 5] as u32) << 8 | (data[k + 6] as u32) << 16 | (data[
        k + 7] as u32) << 24;
    let flags = data[k + 8] as u32 | (data[k + 9] as u32) << 8;
    if (flags & 3 != 0) && id != 0xFFFF_FFFF {
        Some(MadtCpu { id, extended: true })
    } else {
        None
    }
}

/// The processors the record list yields from offset `k` on: walks the
/// type and length of each record, collecting usable local-APIC and
/// x2APIC entries; `None` when a record is truncated or malformed.
pub open spec fn madt_walk(data: Seq<u8>, k: int) -> Option<Seq<MadtCpu>>
    decreases data.len() - k,
{
    if k >= data.len() {
        Some(Seq::empty())
    } else if data.len() - k < 2 {
        None
    } else {
        let typ = data[k];
        let len = data[k + 1] as int;
        if len < 2 || len > data.len() - k {
            None
        } else {
            match madt_walk(data, k + len) {
                None => None,
                Some(tail) => {
                    if typ == 0 && len == 8 {
                        match lapic_cpu(data, k) {
                            Some(c) => Some(seq![c] + tail),
                            None => Some(tail),
                        }
                    } else if typ == 9 && len == 16 {
                        match x2apic_cpu(data, k) {
                            Some(c) => Some(seq![c] + tail),
                            None => Some(tail),
                        }
                    } else {
                        Some(tail)
                    }
                },
            }
        }
    }
}

/// What the whole entry area yields: nothing for an empty area, a
/// failure for one shorter than its preamble, and otherwise the walk
/// of the records past the 8-byte local-APIC preamble.
pub open spec fn madt_cpus_spec(data: Seq<u8>) -> Option<Seq<MadtCpu>> {
    if data.len() == 0 {
        Some(Seq::empty())
    } else if data.len() < 8 {
        None
    } else {
        madt_walk(data, 8)
    }
}

/// Walks the entry list of a multiple-APIC description table (the
/// bytes after the header) and collects the usable processors: enabled
/// or online-capable local APICs whose ID is not the broadcast value.
pub fn madt_cpus(data: &Vec<u8>) -> (r: Option<Vec<MadtCpu>>)
    ensures
        match r {
            Some(v) => madt_cpus_spec(data@) == Some(v@),
            None => madt_cpus_spec(data@) is None,
        },
{
    let mut cpus: Vec<MadtCpu> = Vec::new();
    let mut k: usize = 8;
    if data.len() < 8 {
        return if data.len() == 0 {
            Some(cpus)
        } else {
            None
        };
    }
    while k < data.len()
        invariant
            8 <= k,
            data@.len() >= 8,
            madt_walk(data@, 8) == match madt_walk(data@, k as int) {
                None => None::<Seq<MadtCpu>>,
                Some(tail) => Some(cpus@ + tail),
            },
        decreases data@.len() - k,
    {
        if data.len() - k < 2 {
            return None;
        }
        let typ = data[k];
        let len = data[k + 1] as usize;
        if len < 2 || len > data.len() - k {
            return None;
        }
        let ghost cpusold = cpus@;
        if typ == 0 && len == 8 {
            // a local APIC record: id in byte 3, flags in bytes 4..8
            let id = data[k + 3] as u32;
            let flags = data[k + 4] as u32 | (data[k + 5] as u32) << 8;
            if (flags & 3 != 0) && id != 0xFF {
                cpus.push(MadtCpu { id, extended: false });
            }
        } else if typ == 9 && len == 16 {
            // an x2APIC record: id in bytes 4..8, flags in bytes 8..12
            let id = data[k + 4] as u32 | (data[k + 5] as u32) << 8 | (data[k + 6] as u32) << 16
                | (data[k + 7] as u32) << 24;
            let flags = data[k + 8] as u32 | (data[k + 9] as u32) << 8;
            if (flags & 3 != 0) && id != 0xFFFF_FFFF {
                cpus.push(MadtCpu { id, extended: true });
            }
        }
        proof {
            assert forall|tail: Seq<MadtCpu>|
                madt_walk(data@, (k + len) as int) == Some(tail) implies cpus@ + tail
                == match madt_walk(data@, k as int) {
                None => cpusold,
                Some(t0) => cpusold + t0,
            } by {
                if typ == 0 && len == 8 && lapic_cpu(data@, k as int) is Some {
                    assert(cpus@ + tail =~= cpusold + (seq![
                        lapic_cpu(data@, k as int).unwrap(),
                    ] + tail));
                } else if typ == 9 && len == 16 && x2apic_cpu(data@, k as int) is Some {
                    assert(cpus@ + tail =~= cpusold + (seq![
                        x2apic_cpu(data@, k as int).unwrap(),
                    ] + tail));
                } else {
                    assert(cpus@ + tail =~= cpusold + tail);
                }
            }
        }
        k = k + len;
    }
    proof {
        assert(madt_walk(data@, k as int) == Some(Seq::<MadtCpu>::empty()));
        assert(cpus@ + Seq::<MadtCpu>::empty() =~= cpus@);
    }
    Some(cpus)
}

} // verus!
