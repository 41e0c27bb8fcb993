//! The local APIC's interrupt command register.
//!
//! In x2APIC mode the ICR is a single 64-bit MSR; the fields below are
//! the ones the start-up sequence uses.  Writing the register (a
//! privileged MSR access) is left to the embedding program; this module
//! builds and decodes the values.

use vstd::prelude::*;

verus! {

/// How an interprocessor interrupt is delivered.
#[derive(Clone, Copy, Debug, PartialEq, Eq, Structural)]
pub enum DeliveryMode {
    Fixed,
    SMI,
    NMI,
    Init,
    SIPI,
}

impl DeliveryMode {
    /// The three-bit hardware encoding of the mode.
    pub open spec fn bits_spec(self) -> u8 {
        match self {
            DeliveryMode::Fixed => 0,
            DeliveryMode::SMI => 2,
            DeliveryMode::NMI => 4,
            DeliveryMode::Init => 5,
            DeliveryMode::SIPI => 6,
        }
    }

    /// Returns the hardware encoding of the mode.
    pub fn bits(self) -> (r: u8)
        ensures
            r == self.bits_spec(),
    {
        match self {
            DeliveryMode::Fixed => 0,
            DeliveryMode::SMI => 2,
            DeliveryMode::NMI => 4,
            DeliveryMode::Init => 5,
            DeliveryMode::SIPI => 6,
        }
    }
}

/// Physical or logical destination addressing.
#[derive(Clone, Copy, Debug, PartialEq, Eq, Structural)]
pub enum DestinationMode {
    Physical,
    Logical,
}

/// Level for level-triggered IPIs.
#[derive(Clone, Copy, Debug, PartialEq, Eq, Structural)]
pub enum Level {
    DeAssert,
    Assert,
}

/// Edge- or level-triggered delivery.
#[derive(Clone, Copy, Debug, PartialEq, Eq, Structural)]
pub enum TriggerMode {
    Edge,
    Level,
}

/// The broadcast shorthands the ICR understands.
#[derive(Clone, Copy, Debug, PartialEq, Eq, Structural)]
pub enum DestinationShorthand {
    Myself,
    AllIncludingSelf,
    AllButSelf,
}

impl DestinationShorthand {
    /// The two-bit hardware encoding of the shorthand.
    pub open spec fn bits_spec(self) -> u8 {
        match self {
            DestinationShorthand::Myself => 1,
            DestinationShorthand::AllIncludingSelf => 2,
            DestinationShorthand::AllButSelf => 3,
        }
    }

    /// Returns the hardware encoding of the shorthand.
    pub fn bits(self) -> (r: u8)
        ensures
            r == self.bits_spec(),
    {
        match self {
            DestinationShorthand::Myself => 1,
            DestinationShorthand::AllIncludingSelf => 2,
            DestinationShorthand::AllButSelf => 3,
        }
    }
}

/// Represents the Interrupt Command Register.
///
/// Field layout: vector in bits 0..8, delivery mode in 8..11,
/// destination mode in bit 11, level in bit 14, trigger mode in bit 15,
/// destination shorthand in bits 18..20, destination in bits 32..64.
#[derive(Clone, Copy, Debug, PartialEq, Eq, Structural)]
pub struct ICR(pub u64);

impl ICR {
    /// An empty register value.
    pub fn new() -> (r: ICR)
        ensures
            r.0 == 0,
    {
        ICR(0)
    }

    /// Sets the vector field.
    #[must_use]
    pub fn with_vector(self, v: u8) -> (r: ICR)
        ensures
            r.0 == (self.0 & !0xFFu64) | (v as u64),
    {
        ICR((self.0 & !0xFFu64) | (v as u64))
    }

    /// Reads the vector field.
    pub fn vector(self) -> (r: u8)
        ensures
            r == (self.0 & 0xFF) as u8,
    {
        (self.0 & 0xFF) as u8
    }

    /// Sets the raw delivery-mode field.
    #[must_use]
    pub fn with_raw_delivery_mode(self, m: u8) -> (r: ICR)
        requires
            m < 8,
        ensures
            r.0 == (self.0 & !0x700u64) | ((m as u64) << 8),
    {
        ICR((self.0 & !0x700u64) | ((m as u64) << 8))
    }

    /// Reads the raw delivery-mode field.
    pub fn raw_delivery_mode(self) -> (r: u8)
        ensures
            r == ((self.0 >> 8) & 7) as u8,
    {
        ((self.0 >> 8) & 7) as u8
    }

    /// Sets the delivery mode.
    #[must_use]
    pub fn with_delivery_mode(self, mode: DeliveryMode) -> (r: ICR)
        ensures
            r.0 == (self.0 & !0x700u64) | ((mode.bits_spec() as u64) << 8),
    {
        let b = mode.bits();
        self.with_raw_delivery_mode(b)
    }

    /// Decodes the delivery mode, handing back the raw value when it is
    /// not one this module builds.
    pub fn delivery_mode(self) -> (r: Result<DeliveryMode, u8>)
        ensures
            match r {
                Ok(m) => m.bits_spec() == ((self.0 >> 8) & 7) as u8,
                Err(o) => {
                    &&& o == ((self.0 >> 8) & 7) as u8
                    &&& (o == 1 || o == 3 || o == 7)
                },
            },
    {
        let raw = self.raw_delivery_mode();
        proof {
            let x = self.0;
            assert(((x >> 8) & 7) < 8) by (bit_vector);
        }
        match raw {
            0 => Ok(DeliveryMode::Fixed),
            2 => Ok(DeliveryMode::SMI),
            4 => Ok(DeliveryMode::NMI),
            5 => Ok(DeliveryMode::Init),
            6 => Ok(DeliveryMode::SIPI),
            o => Err(o),
        }
    }

    /// Sets the destination mode (bit 11).
    #[must_use]
    pub fn with_destination_mode(self, mode: DestinationMode) -> (r: ICR)
        ensures
            mode == DestinationMode::Logical ==> r.0 == self.0 | 0x800u64,
            mode == DestinationMode::Physical ==> r.0 == self.0 & !0x800u64,
    {
        match mode {
            DestinationMode::Physical => ICR(self.0 & !0x800u64),
            DestinationMode::Logical => ICR(self.0 | 0x800u64),
        }
    }

    /// Reads the destination mode.
    pub fn destination_mode(self) -> (r: DestinationMode)
        ensures
            r == (if self.0 & 0x800u64 == 0x800u64 {
                DestinationMode::Logical
            } else {
                DestinationMode::Physical
            }),
    {
        if self.0 & 0x800u64 == 0x800u64 {
            DestinationMode::Logical
        } else {
            DestinationMode::Physical
        }
    }

    /// Sets the level (bit 14).
    #[must_use]
    pub fn with_level(self, level: Level) -> (r: ICR)
        ensures
            level == Level::Assert ==> r.0 == self.0 | 0x4000u64,
            level == Level::DeAssert ==> r.0 == self.0 & !0x4000u64,
    {
        match level {
            Level::DeAssert => ICR(self.0 & !0x4000u64),
            Level::Assert => ICR(self.0 | 0x4000u64),
        }
    }

    /// Reads the level.
    pub fn level(self) -> (r: Level)
        ensures
            r == (if self.0 & 0x4000u64 == 0x4000u64 {
                Level::Assert
            } else {
                Level::DeAssert
            }),
    {
        if self.0 & 0x4000u64 == 0x4000u64 {
            Level::Assert
        } else {
            Level::DeAssert
        }
    }

    /// Sets the trigger mode (bit 15).
    #[must_use]
    pub fn with_trigger_mode(self, mode: TriggerMode) -> (r: ICR)
        ensures
            mode == TriggerMode::Level ==> r.0 == self.0 | 0x8000u64,
            mode == TriggerMode::Edge ==> r.0 == self.0 & !0x8000u64,
    {
        match mode {
            TriggerMode::Edge => ICR(self.0 & !0x8000u64),
            TriggerMode::Level => ICR(self.0 | 0x8000u64),
        }
    }

    /// Reads the trigger mode.
    pub fn trigger_mode(self) -> (r: TriggerMode)
        ensures
            r == (if self.0 & 0x8000u64 == 0x8000u64 {
                TriggerMode::Level
            } else {
                TriggerMode::Edge
            }),
    {
        if self.0 & 0x8000u64 == 0x8000u64 {
            TriggerMode::Level
        } else {
            TriggerMode::Edge
        }
    }

    /// Sets the raw destination-shorthand field (bits 18..20).
    #[must_use]
    pub fn with_raw_destination_shorthand(self, s: u8) -> (r: ICR)
        requires
            s < 4,
        ensures
            r.0 == (self.0 & !0xC_0000u64) | ((s as u64) << 18),
    {
        ICR((self.0 & !0xC_0000u64) | ((s as u64) << 18))
    }

    /// Reads the raw destination-shorthand field.
    pub fn raw_destination_shorthand(self) -> (r: u8)
        ensures
            r == ((self.0 >> 18) & 3) as u8,
    {
        ((self.0 >> 18) & 3) as u8
    }

    /// Sets the destination shorthand; `None` addresses the CPU named
    /// in the destination field.
    #[must_use]
    pub fn with_destination_shorthand(self, shorthand: Option<DestinationShorthand>) -> (r: ICR)
        ensures
            r.0 == (self.0 & !0xC_0000u64) | ((match shorthand {
                Some(s) => s.bits_spec(),
                None => 0,
            } as u64) << 18),
    {
        let raw: u8 = match shorthand {
            Some(s) => s.bits(),
            None => 0,
        };
        self.with_raw_destination_shorthand(raw)
    }

    /// Decodes the destination shorthand.
    pub fn destination_shorthand(self) -> (r: Option<DestinationShorthand>)
        ensures
            match r {
                Some(s) => s.bits_spec() == ((self.0 >> 18) & 3) as u8,
                None => ((self.0 >> 18) & 3) == 0,
            },
    {
        let raw = self.raw_destination_shorthand();
        proof {
            let x = self.0;
            assert(((x >> 18) & 3) < 4) by (bit_vector);
        }
        match raw {
            0 => None,
            1 => Some(DestinationShorthand::Myself),
            2 => Some(DestinationShorthand::AllIncludingSelf),
            _ => Some(DestinationShorthand::AllButSelf),
        }
    }

    /// Sets the destination field (bits 32..64).
    #[must_use]
    pub fn with_destination(self, d: u32) -> (r: ICR)
        ensures
            r.0 == (self.0 & 0xFFFF_FFFFu64) | ((d as u64) << 32),
    {
        ICR((self.0 & 0xFFFF_FFFFu64) | ((d as u64) << 32))
    }

    /// Reads the destination field.
    pub fn destination(self) -> (r: u32)
        ensures
            r == (self.0 >> 32) as u32,
    {
        proof {
            let x = self.0;
            assert((x >> 32) <= 0xFFFF_FFFFu64) by (bit_vector);
        }
        (self.0 >> 32) as u32
    }
}

/// The ICR value for an edge-triggered fixed interrupt to one CPU.
pub fn ipi_value(cpu: crate::ProcessorID, vector: u8) -> (r: ICR)
    ensures
        r.0 == ((cpu.0 as u64) << 32) | (vector as u64),
{
    let r = ICR::new()
        .with_vector(vector)
        .with_delivery_mode(DeliveryMode::Fixed)
        .with_trigger_mode(TriggerMode::Edge)
        .with_destination(cpu.0);
    proof {
        let v = vector;
        let c = cpu.0;
        assert((((((((0u64 & !0xFFu64) | (v as u64)) & !0x700u64) | ((0u64) << 8)) & !0x8000u64)
            & 0xFFFF_FFFFu64) | ((c as u64) << 32)) == ((c as u64) << 32) | (v as u64))
            by (bit_vector);
    }
    r
}

/// The ICR value broadcasting INIT to every core but this one.
pub fn broadcast_init_value() -> (r: ICR)
    ensures
        r.0 == 0x000C_0500u64,
    {
    let r = ICR::new()
        .with_trigger_mode(TriggerMode::Edge)
        .with_delivery_mode(DeliveryMode::Init)
        .with_destination_shorthand(Some(DestinationShorthand::AllButSelf));
    proof {
        assert(((((0u64 & !0x8000u64) & !0x700u64) | (5u64 << 8)) & !0xC_0000u64) | (3u64 << 18)
            == 0x000C_0500u64) by (bit_vector);
    }
    r
}

/// The ICR value broadcasting a start-up IPI with the given vector to
/// every core but this one.
pub fn broadcast_sipi_value(vector: u8) -> (r: ICR)
    ensures
        r.0 == 0x000C_0600u64 | (vector as u64),
{
    let r = ICR::new()
        .with_delivery_mode(DeliveryMode::SIPI)
        .with_destination_shorthand(Some(DestinationShorthand::AllButSelf))
        .with_vector(vector);
    proof {
        let v = vector;
        assert(((((((0u64 & !0x700u64) | (6u64 << 8)) & !0xC_0000u64) | (3u64 << 18)) & !0xFFu64)
            | (v as u64)) == 0x000C_0600u64 | (v as u64)) by (bit_vector);
    }
    r
}

/// The ICR value for a directed start-up IPI.
pub fn sipi_value(cpu: crate::ProcessorID, vector: u8) -> (r: ICR)
    ensures
        r.0 == ((cpu.0 as u64) << 32) | 0x600u64 | (vector as u64),
{
    let r = ICR::new()
        .with_delivery_mode(DeliveryMode::SIPI)
        .with_destination(cpu.0)
        .with_vector(vector);
    proof {
        let v = vector;
        let c = cpu.0;
        assert((((((0u64 & !0x700u64) | (6u64 << 8)) & 0xFFFF_FFFFu64) | ((c as u64) << 32))
            & !0xFFu64) | (v as u64) == ((c as u64) << 32) | 0x600u64 | (v as u64))
            by (bit_vector);
    }
    r
}

} // verus!
