use hypatia::mp::{mp_step, sipi_page_bytes, CpuTable, EntryCPU, MpAction, MpPhase};
use hypatia::ProcessorID;

#[test]
fn sequencer_happy_path() {
    // the boot processor plus two simulated APs that report running
    // during the polling window
    let mut cpus = CpuTable::new(vec![
        EntryCPU::new(ProcessorID(0), 0x7000),
        EntryCPU::new(ProcessorID(1), 0x8000),
        EntryCPU::new(ProcessorID(2), 0x9000),
    ]);
    cpus.cpus[0].state = 1;
    let (phase, action) = mp_step(MpPhase::Start, false, false);
    assert_eq!(action, MpAction::BroadcastInit);
    let (phase, action) = mp_step(phase, false, false);
    assert_eq!(action, MpAction::PauseTenMillis);
    let (phase, action) = mp_step(phase, false, false);
    assert_eq!(action, MpAction::BroadcastSipi);
    // the APs come up within the window
    cpus.cpus[1].state = 1;
    cpus.cpus[2].state = 1;
    assert!(cpus.all_running());
    let (phase, action) = mp_step(phase, cpus.all_running(), false);
    assert_ne!(action, MpAction::DirectedSipi);
    assert_eq!(phase, MpPhase::Rendezvous(0));
    // both APs check in
    assert!(!cpus.all_signalled());
    cpus.signal_ap(ProcessorID(1));
    cpus.signal_ap(ProcessorID(2));
    assert!(cpus.all_signalled());
    let (phase, action) = mp_step(phase, true, cpus.all_signalled());
    assert_eq!(phase, MpPhase::Done);
    assert_eq!(action, MpAction::Proceed);
}

#[test]
fn sequencer_straggler_path() {
    let mut cpus = CpuTable::new(vec![
        EntryCPU::new(ProcessorID(1), 0x8000),
        EntryCPU::new(ProcessorID(2), 0x9000),
    ]);
    cpus.cpus[0].state = 1;
    assert!(!cpus.all_running());
    let stragglers = cpus.stragglers();
    assert_eq!(stragglers, vec![1]);
    // the polling window expires without the second AP
    let mut phase = MpPhase::SipiBroadcast(1);
    let mut directed = false;
    for _ in 0..300 {
        let (next, action) = mp_step(phase, cpus.all_running(), false);
        phase = next;
        if action == MpAction::DirectedSipi {
            directed = true;
            break;
        }
    }
    assert!(directed);
    assert_eq!(phase, MpPhase::Rendezvous(0));
}

#[test]
fn sequencer_rendezvous_timeout_is_fatal() {
    let (phase, action) = mp_step(MpPhase::Rendezvous(500000), false, false);
    assert_eq!(phase, MpPhase::Failed);
    assert_eq!(action, MpAction::Fatal);
}

#[test]
fn sipi_page_layout() {
    let stub = vec![0x90u8, 0xEB, 0xFE];
    let page = sipi_page_bytes(&stub, 0x1234_5678_9ABC_DEF0, 4);
    assert_eq!(page.len(), 4096);
    assert_eq!(&page[..3], &[0x90, 0xEB, 0xFE]);
    assert!(page[3..4080].iter().all(|&b| b == 0));
    assert_eq!(&page[4080..4088], &4u64.to_le_bytes());
    assert_eq!(&page[4088..4096], &0x1234_5678_9ABC_DEF0u64.to_le_bytes());
}
