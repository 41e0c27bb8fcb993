//! Multi-processor start-up.
//!
//! The boot processor parks the application processors via the
//! INIT-SIPI-SIPI protocol: it stages a position-independent start-up
//! stub in the SIPI page, broadcasts INIT and a first SIPI, polls each
//! AP's state word, sends a directed second SIPI to stragglers, and
//! finally waits for every AP to check in.  The hardware steps (IPIs
//! and timed waits) are performed by the embedding program; the
//! decisions between them are the sequencer below.

use vstd::prelude::*;

verus! {

/// The vector used for start-up IPIs: an AP begins executing at
/// `SIPI_VECTOR * 4096` in real mode.
pub const SIPI_VECTOR: u8 = 7;

/// The value of an AP's state word once it runs.
pub const STATE_RUNNING: u32 = 1;

/// Describes one CPU and its stack as known to the system for early
/// start-up; the AP start-up stub walks an array of these to find its
/// own entry by LAPIC ID, and sets the low bit of `state` once it is
/// executing.
#[derive(Clone, Copy, Debug, PartialEq, Eq, Structural)]
pub struct EntryCPU {
    /// The LAPIC ID of the CPU.
    pub apic_id: crate::ProcessorID,
    /// Zero until the AP observes its SIPI and starts running.
    pub state: u32,
    /// Top of the stack the AP boots on.
    pub stack: u64,
}

impl EntryCPU {
    /// A new entry for the given CPU, not yet running.
    pub fn new(apic_id: crate::ProcessorID, stack: u64) -> (r: EntryCPU)
        ensures
            r.apic_id == apic_id,
            r.state == 0,
            r.stack == stack,
    {
        EntryCPU { apic_id, state: 0, stack }
    }
}

/// The CPUs taking part in start-up, plus the count of processors that
/// have checked in from high-level code (the boot processor included).
pub struct CpuTable {
    /// One entry per CPU.
    pub cpus: Vec<EntryCPU>,
    /// Processors that have checked in so far.
    pub count: u32,
}

impl CpuTable {
    /// How many processors have checked in.
    pub closed spec fn count_spec(self) -> u32 {
        self.count
    }

    /// A table over the given CPUs; only the boot processor has checked
    /// in.
    pub fn new(cpus: Vec<EntryCPU>) -> (r: CpuTable)
        ensures
            r.cpus == cpus,
            r.count_spec() == 1,
    {
        CpuTable { cpus, count: 1 }
    }

    /// Signals that the given processor is up by incrementing the
    /// count.
    pub fn signal_ap(&mut self, cpu: crate::ProcessorID)
        requires
            old(self).count_spec() < u32::MAX,
        ensures
            final(self).count_spec() == old(self).count_spec() + 1,
            final(self).cpus == old(self).cpus,
    {
        self.count = self.count + 1;
    }

    /// True once every CPU in the table has checked in.
    pub fn all_signalled(&self) -> (r: bool)
        ensures
            r == (self.count_spec() as int >= self.cpus@.len()),
    {
        self.count as usize >= self.cpus.len()
    }

    /// True when every AP has marked itself running.
    pub fn all_running(&self) -> (r: bool)
        ensures
            r == (forall|i: int|
                0 <= i < self.cpus@.len() ==> #[trigger] self.cpus@[i].state == STATE_RUNNING),
    {
        let mut i: usize = 0;
        while i < self.cpus.len()
            invariant
                i <= self.cpus@.len(),
                forall|j: int| 0 <= j < i ==> #[trigger] self.cpus@[j].state == STATE_RUNNING,
            decreases self.cpus@.len() - i,
        {
            if self.cpus[i].state != STATE_RUNNING {
                return false;
            }
            i = i + 1;
        }
        true
    }

    /// The indexes of the CPUs that have not yet marked themselves
    /// running, in table order.
    pub fn stragglers(&self) -> (r: Vec<usize>)
        ensures
            forall|j: int|
                0 <= j < r@.len() ==> (#[trigger] r@[j] < self.cpus@.len()
                    && self.cpus@[r@[j] as int].state != STATE_RUNNING),
            forall|i: int|
                0 <= i < self.cpus@.len() && #[trigger] self.cpus@[i].state != STATE_RUNNING
                    ==> r@.contains(i as usize),
    {
        let mut r: Vec<usize> = Vec::new();
        let mut i: usize = 0;
        while i < self.cpus.len()
            invariant
                i <= self.cpus@.len(),
                forall|j: int|
                    0 <= j < r@.len() ==> (#[trigger] r@[j] < self.cpus@.len()
                        && self.cpus@[r@[j] as int].state != STATE_RUNNING),
                forall|i2: int|
                    0 <= i2 < i && #[trigger] self.cpus@[i2].state != STATE_RUNNING
                        ==> r@.contains(i2 as usize),
            decreases self.cpus@.len() - i,
        {
            if self.cpus[i].state != STATE_RUNNING {
                let ghost rold = r@;
                r.push(i);
                proof {
                    assert(r@[rold.len() as int] == i);
                    assert forall|i2: int|
                        0 <= i2 < i + 1 && #[trigger] self.cpus@[i2].state != STATE_RUNNING
                            implies r@.contains(i2 as usize) by {
                        if i2 < i {
                            let j = choose|j: int| 0 <= j < rold.len() && rold[j] == i2 as usize;
                            assert(r@[j] == i2 as usize);
                        }
                    }
                }
            }
            i = i + 1;
        }
        r
    }
}

/// The byte of `x` at little-endian position `k`.
pub open spec fn le_byte(x: u64, k: int) -> u8 {
    ((x >> (8 * k as u64)) & 0xFF) as u8
}

/// The SIPI page: the start-up stub at the front, the CPU count in the
/// next-to-last word and the CPU table's address in the last word, both
/// little endian, and zeroes in between.
pub fn sipi_page_bytes(stub: &Vec<u8>, cpus_ptr: u64, ncpus: u64) -> (r: Vec<u8>)
    requires
        stub@.len() <= 4080,
    ensures
        r@.len() == 4096,
        forall|i: int| 0 <= i < stub@.len() ==> r@[i] == stub@[i],
        forall|i: int| stub@.len() <= i < 4080 ==> r@[i] == 0,
        forall|k: int| 0 <= k < 8 ==> r@[4080 + k] == le_byte(ncpus, k),
        forall|k: int| 0 <= k < 8 ==> r@[4088 + k] == le_byte(cpus_ptr, k),
{
    let mut r: Vec<u8> = Vec::new();
    let mut i: usize = 0;
    while i < stub.len()
        invariant
            i <= stub@.len(),
            stub@.len() <= 4080,
            r@.len() == i,
            forall|j: int| 0 <= j < i ==> r@[j] == stub@[j],
        decreases stub@.len() - i,
    {
        let b = stub[i];
        r.push(b);
        i = i + 1;
    }
    while i < 4080
        invariant
            stub@.len() <= i <= 4080,
            r@.len() == i,
            forall|j: int| 0 <= j < stub@.len() ==> r@[j] == stub@[j],
            forall|j: int| stub@.len() <= j < i ==> r@[j] == 0,
        decreases 4080 - i,
    {
        r.push(0);
        i = i + 1;
    }
    let mut k: usize = 0;
    while k < 8
        invariant
            stub@.len() <= 4080,
            k <= 8,
            r@.len() == 4080 + k,
            forall|j: int| 0 <= j < stub@.len() ==> r@[j] == stub@[j],
            forall|j: int| stub@.len() <= j < 4080 ==> r@[j] == 0,
            forall|j: int| 0 <= j < k ==> r@[4080 + j] == le_byte(ncpus, j),
        decreases 8 - k,
    {
        let sh = (8 * k) as u64;
        proof {
            let x = ncpus;
            let s = sh;
            assert(s < 64 ==> ((x >> s) & 0xFF) <= 0xFF) by (bit_vector);
        }
        r.push(((ncpus >> sh) & 0xFF) as u8);
        k = k + 1;
    }
    let mut k: usize = 0;
    while k < 8
        invariant
            stub@.len() <= 4080,
            k <= 8,
            r@.len() == 4088 + k,
            forall|j: int| 0 <= j < stub@.len() ==> r@[j] == stub@[j],
            forall|j: int| stub@.len() <= j < 4080 ==> r@[j] == 0,
            forall|j: int| 0 <= j < 8 ==> r@[4080 + j] == le_byte(ncpus, j),
            forall|j: int| 0 <= j < k ==> r@[4088 + j] == le_byte(cpus_ptr, j),
        decreases 8 - k,
    {
        let sh = (8 * k) as u64;
        proof {
            let x = cpus_ptr;
            let s = sh;
            assert(s < 64 ==> ((x >> s) & 0xFF) <= 0xFF) by (bit_vector);
        }
        r.push(((cpus_ptr >> sh) & 0xFF) as u8);
        k = k + 1;
    }
    r
}

/// Where the start-up sequencer stands.
#[derive(Clone, Copy, Debug, PartialEq, Eq, Structural)]
pub enum MpPhase {
    /// Nothing sent yet.
    Start,
    /// INIT has been broadcast; the mandated delay is pending.
    InitSent,
    /// The first SIPI has been broadcast; the APs are being polled.
    /// The payload counts the polls made so far.
    SipiBroadcast(u32),
    /// A directed SIPI has been sent to each straggler; waiting for all
    /// processors to check in.  The payload counts the waits so far.
    Rendezvous(u32),
    /// Every processor checked in.
    Done,
    /// The rendezvous timed out: fatal.
    Failed,
}

/// What the embedding program must do next.
#[derive(Clone, Copy, Debug, PartialEq, Eq, Structural)]
pub enum MpAction {
    /// Broadcast INIT to all but self.
    BroadcastInit,
    /// Busy-wait ten milliseconds.
    PauseTenMillis,
    /// Broadcast a SIPI with [`SIPI_VECTOR`] to all but self.
    BroadcastSipi,
    /// Busy-wait one microsecond, then poll the AP state words.
    PollStates,
    /// Send a directed SIPI with [`SIPI_VECTOR`] to each straggler.
    DirectedSipi,
    /// Busy-wait one microsecond, then check the rendezvous count.
    AwaitCount,
    /// Start-up is complete.
    Proceed,
    /// An AP never checked in: report and halt.
    Fatal,
}

/// How many polls are made after the broadcast SIPI before falling back
/// to directed SIPIs.
pub const SIPI_POLLS: u32 = 200;

/// How many one-microsecond waits the rendezvous allows before giving
/// up.
pub const RENDEZVOUS_WAITS: u32 = 500000;

/// The start-up sequencer's transition function.
///
/// `all_running` reports the last poll of the AP state words, and
/// `all_signalled` the last read of the rendezvous count; they are only
/// consulted in the phases that poll.
pub open spec fn mp_step_spec(phase: MpPhase, all_running: bool, all_signalled: bool) -> (
    MpPhase,
    MpAction,
) {
    match phase {
        MpPhase::Start => (MpPhase::InitSent, MpAction::BroadcastInit),
        MpPhase::InitSent => (MpPhase::SipiBroadcast(0), MpAction::PauseTenMillis),
        MpPhase::SipiBroadcast(polls) => {
            if polls == 0 {
                (MpPhase::SipiBroadcast(1), MpAction::BroadcastSipi)
            } else if all_running {
                (MpPhase::Rendezvous(0), MpAction::AwaitCount)
            } else if polls < SIPI_POLLS {
                (MpPhase::SipiBroadcast((polls + 1) as u32), MpAction::PollStates)
            } else {
                (MpPhase::Rendezvous(0), MpAction::DirectedSipi)
            }
        },
        MpPhase::Rendezvous(iters) => {
            if all_signalled {
                (MpPhase::Done, MpAction::Proceed)
            } else if iters < RENDEZVOUS_WAITS {
                (MpPhase::Rendezvous((iters + 1) as u32), MpAction::AwaitCount)
            } else {
                (MpPhase::Failed, MpAction::Fatal)
            }
        },
        MpPhase::Done => (MpPhase::Done, MpAction::Proceed),
        MpPhase::Failed => (MpPhase::Failed, MpAction::Fatal),
    }
}

/// One step of the start-up sequencer.
pub fn mp_step(phase: MpPhase, all_running: bool, all_signalled: bool) -> (r: (MpPhase, MpAction))
    ensures
        r == mp_step_spec(phase, all_running, all_signalled),
{
    match phase {
        MpPhase::Start => (MpPhase::InitSent, MpAction::BroadcastInit),
        MpPhase::InitSent => (MpPhase::SipiBroadcast(0), MpAction::PauseTenMillis),
        MpPhase::SipiBroadcast(polls) => {
            if polls == 0 {
                (MpPhase::SipiBroadcast(1), MpAction::BroadcastSipi)
            } else if all_running {
                (MpPhase::Rendezvous(0), MpAction::AwaitCount)
            } else if polls < SIPI_POLLS {
                (MpPhase::SipiBroadcast(polls + 1), MpAction::PollStates)
            } else {
                (MpPhase::Rendezvous(0), MpAction::DirectedSipi)
            }
        },
        MpPhase::Rendezvous(iters) => {
            if all_signalled {
                (MpPhase::Done, MpAction::Proceed)
            } else if iters < RENDEZVOUS_WAITS {
                (MpPhase::Rendezvous(iters + 1), MpAction::AwaitCount)
            } else {
                (MpPhase::Failed, MpAction::Fatal)
            }
        },
        MpPhase::Done => (MpPhase::Done, MpAction::Proceed),
        MpPhase::Failed => (MpPhase::Failed, MpAction::Fatal),
    }
}

/// While the APs all report running during the polling window, the
/// sequencer reaches the rendezvous without ever issuing a directed
/// SIPI.
pub proof fn lemma_no_directed_sipi_when_running(polls: u32, all_signalled: bool)
    requires
        polls > 0,
    ensures
        mp_step_spec(MpPhase::SipiBroadcast(polls), true, all_signalled).1
            != MpAction::DirectedSipi,
        mp_step_spec(MpPhase::SipiBroadcast(polls), true, all_signalled).0
            == MpPhase::Rendezvous(0),
{
}

} // verus!
