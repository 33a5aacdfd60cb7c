use mboot::arch::x86_64::timer::{
    acknowledge, initialize, prepare_entry, tsc_frequency_hz, ApicWrite,
};
use mboot::arch::x86_64::FxState;
use mboot::serial::{encode, init, transmitter_ready};
use mboot::smp::{
    acknowledged, build_startup_page, check_host, check_online, check_processor, is_late,
    is_startable, pair_leader, processor_for, send_ipi, startup_command, IpiWrite, StartCommand,
    StartError, StartStep, StartupParameters, PARAMS,
};
use mboot::{CpuidResult, Error, VmExit, VmExitReason};

fn parameters() -> StartupParameters {
    StartupParameters {
        page: 0x8000,
        protected_mode_offset: 0x40,
        long_mode_offset: 0x80,
        entry: 0x1234_5678_9abc_def0,
        cr0: 1,
        cr3: 0x7000,
        cr4: 3,
        efer: 4,
        stack_top: 5,
        context: 6,
    }
}

#[test]
fn startup_parameters_stand_behind_the_code() {
    let page = build_startup_page(&[0x90; 16], &parameters()).unwrap();
    assert_eq!(page.len(), 4096);
    assert_eq!(&page[..16], &[0x90; 16]);
    let entry = 0x1234_5678_9abc_def0u64.to_le_bytes();
    assert!(page[PARAMS as usize..].windows(8).any(|bytes| bytes == entry));
    assert_eq!(
        build_startup_page(&[0x90; 4096], &parameters()),
        Err(StartError::BadBufferSize)
    );
}

#[test]
fn processors_are_checked_before_they_are_started() {
    assert_eq!(check_host(0, 0x1000, 0, 0x800), Err(StartError::Unsupported));
    assert_eq!(check_processor(1, 0x800, 1), Err(StartError::AlreadyStarted));
    assert_eq!(check_online(0, true), Err(StartError::Timeout));
    assert_eq!(check_online(0, false), Ok(false));
    assert!(is_startable(false, true, true));
    assert!(!is_startable(true, true, true));
    assert_eq!(startup_command(0x8000) & 0xff, 8);
    assert!(is_late(5, 5));
    assert!(!is_late(4, 5));
    assert_eq!(
        send_ipi(0xc00, 3, 0x4500),
        IpiWrite::Msr { register: 0x830, value: 0x3_0000_4500 }
    );
}

#[test]
fn every_domain_has_a_processor_of_its_own() {
    assert_eq!(processor_for(0, 4), None);
    assert_eq!(processor_for(1, 4), Some(0));
    assert_eq!(processor_for(4, 4), Some(3));
    assert_eq!(processor_for(5, 4), None);
    assert_eq!(pair_leader(Some(1), Some(1)), Err(Error::InvalidState));
}

#[test]
fn an_acknowledged_interrupt_is_reported_once() {
    let exit = VmExit {
        reason: VmExitReason::Preempted,
        raw_reason: 1,
        hypercall_number: 0,
        arg0: 0,
        arg1: 0,
        arg2: 0,
        msr: 0,
        msr_value: 0,
        cpuid_leaf: 0,
        cpuid_subleaf: 0,
        fault_address: 0,
        fault_info: (1 << 31) | 0x52,
    };
    let (vector, rest) = acknowledged(exit);
    assert_eq!(vector, Some(0x52));
    assert_eq!(acknowledged(rest).0, None);
}

#[test]
fn the_preemption_timer_needs_a_clock() {
    let none = CpuidResult { eax: 0, ebx: 0, ecx: 0, edx: 0 };
    let deadline = CpuidResult { ecx: 1 << 24, edx: 1 << 9, ..none };
    assert!(initialize(0xfee0_0800, none, Some(1_000_000)).is_none());
    let plan = initialize(0xfee0_0800, deadline, Some(2_000_000_000)).unwrap();
    assert!(plan.interval > 0);
    assert_eq!(prepare_entry(plan.interval, 100), Some(100 + plan.interval));
    assert_eq!(prepare_entry(0, 100), None);
    assert!(matches!(acknowledge(0xc00), ApicWrite::Msr { value: 0, .. }));
    let ratio = CpuidResult { eax: 2, ebx: 200, ecx: 24_000_000, edx: 0 };
    assert_eq!(tsc_frequency_hz(0x16, ratio, none), Some(2_400_000_000));
    assert_eq!(tsc_frequency_hz(0x14, ratio, none), None);
}

#[test]
fn serial_lines_end_with_a_carriage_return() {
    assert_eq!(encode(b"a\nb"), b"a\r\nb".to_vec());
    assert!(transmitter_ready(0x20));
    assert!(!transmitter_ready(0));
    assert!(!init().is_empty());
}

#[test]
fn floating_point_state_starts_with_masked_exceptions() {
    let state = FxState::default();
    assert_eq!(state.bytes.len(), 512);
    assert_eq!(&state.bytes[0..2], &0x037fu16.to_le_bytes());
    assert_eq!(&state.bytes[24..28], &0x1f80u32.to_le_bytes());
}

#[test]
fn a_processor_is_started_by_init_and_one_or_two_startups() {
    let hz = 1_000_000;
    assert_eq!(StartCommand::Init.word(0x8000), 0x4500);
    assert_eq!(StartCommand::Startup.word(0x8000), 0x608);
    assert_eq!(StartCommand::Again.word(0x8000), 0x608);
    assert_eq!(StartStep::start(), StartStep::Send(StartCommand::Init));
    let init = StartCommand::Init;
    let startup = StartCommand::Startup;
    assert_eq!(StartStep::sent(init, Ok(()), hz), StartStep::Wait { sent: init, ticks: 10_000 });
    assert_eq!(StartStep::waited(init, 0, hz), StartStep::Send(startup));
    assert_eq!(StartStep::sent(startup, Ok(()), hz), StartStep::Wait { sent: startup, ticks: 200 });
    assert_eq!(StartStep::waited(startup, 1, hz), StartStep::Watch { ticks: hz });
    assert_eq!(StartStep::waited(startup, 0, hz), StartStep::Send(StartCommand::Again));
    assert_eq!(StartStep::sent(StartCommand::Again, Ok(()), hz), StartStep::Watch { ticks: hz });
    assert_eq!(
        StartStep::sent(startup, Err(StartError::Timeout), hz),
        StartStep::Failed(StartError::Timeout)
    );
    assert_eq!(StartStep::watched(0, 4, 5), None);
    assert_eq!(StartStep::watched(1, 5, 5), Some(StartStep::Started));
    assert_eq!(StartStep::watched(0, 5, 5), Some(StartStep::Failed(StartError::Timeout)));
    assert_eq!(StartStep::watched(2, 4, 5), Some(StartStep::Failed(StartError::DeviceError)));
}
