use mboot::abi::{
    BootFramebuffer, DOMAIN_CRASH_STATUS_CRASHED, DOMAIN_CRASH_STATUS_RESTARTED, HYPERCALL_SUCCESS,
};
use mboot::domain::{Domain, DomainId, DomainRole, DomainState};
use mboot::entropy::derive_domain_entropy;
use mboot::event::EventChannelTable;
use mboot::grant::GrantTable;
use mboot::halt::Stage;
use mboot::layout::{DEVICE_WINDOW_START, DOMAIN_BOOT_INFO_GPA};
use mboot::manifest::{ManifestEventChannel, ManifestImageFormat, ManifestRestartPolicy};
use mboot::memory::{NestedPageResources, NestedPageTable, ENTRY_COUNT};
use mboot::physical::PhysicalMemory;
use mboot::smp::ResumeKind;
use mboot::supervisor::{
    cleanup_domain_grants, connect_channels, domain_boot_info, domain_is_running, final_outcome,
    find_domain, isolate_crashed_domain, notify_system_domain, paging_state,
    reconnect_domain_channels, restart_domain, restore_pages, route_interrupt, stop_domain, Entry,
    ExitAction, InterruptPlan, LoadedKernel, Outcome, RestartRule, RestoredPage, RuntimeDomain,
    VcpuPages,
};
use mboot::{BackendKind, Error, GuestBootMode, VmExit, VmExitReason};

const TABLES: u64 = 0x100_0000;
const GUEST: u64 = 0x10_0000;
const PAGES: usize = 96;

fn memory(domains: u32) -> PhysicalMemory {
    let mut memory = PhysicalMemory::new();
    for id in 1..=domains as u64 {
        memory.add_window(id * TABLES, vec![0; 9 * ENTRY_COUNT]);
        memory.add_window(id * TABLES + GUEST, vec![0; PAGES * ENTRY_COUNT]);
    }
    memory
}

fn table(id: u32, memory: &mut PhysicalMemory) -> NestedPageTable {
    let base = id as u64 * TABLES;
    let resources = NestedPageResources {
        root: base,
        level3: base + 0x1000,
        level3_pages: 1,
        level2: base + 0x2000,
        level2_pages: 4,
        level1: base + 0x6000,
        level1_pages: 1,
        device_level1: base + 0x7000,
        device_level1_pages: 1,
        device_state: base + 0x8000,
        guest_base: base + GUEST,
        guest_pages: PAGES,
    };
    NestedPageTable::initialize(BackendKind::IntelVmx, resources, memory).unwrap()
}

fn runtime(
    id: u32,
    role: DomainRole,
    capabilities: u64,
    memory: &mut PhysicalMemory,
) -> RuntimeDomain {
    let mut domain = Domain::new(
        DomainId::new(id),
        role,
        capabilities,
        BackendKind::IntelVmx,
        table(id, memory),
    );
    domain.mark_ready().unwrap();
    domain.start().unwrap();
    RuntimeDomain::new(
        domain,
        ManifestImageFormat::NativeElf,
        LoadedKernel { page_table_root: 0, entry: 0x1_0000, loader_info: 0 },
        VcpuPages { msr_permission_map: 0x5000, msr_state_page: 0x6000 },
        RestartRule { policy: ManifestRestartPolicy::OnFailure, max_restarts: 2 },
    )
}

fn exit(reason: VmExitReason, arguments: [u64; 3]) -> VmExit {
    VmExit {
        reason,
        raw_reason: 0,
        hypercall_number: 0,
        arg0: arguments[0],
        arg1: arguments[1],
        arg2: arguments[2],
        msr: 0,
        msr_value: 0,
        cpuid_leaf: 0,
        cpuid_subleaf: 0,
        fault_address: 0,
        fault_info: 0,
    }
}

fn three() -> (PhysicalMemory, Vec<RuntimeDomain>) {
    let mut memory = memory(3);
    let domains = vec![
        runtime(1, DomainRole::System, 0, &mut memory),
        runtime(2, DomainRole::Hardware, 3, &mut memory),
        runtime(3, DomainRole::Application, 0, &mut memory),
    ];
    (memory, domains)
}

fn kernel() -> LoadedKernel {
    LoadedKernel { page_table_root: 0x1000, entry: 0x2_0000, loader_info: 0x7000 }
}

#[test]
fn domain_states_follow_one_another() {
    let mut memory = memory(1);
    let mut domain = Domain::new(
        DomainId::new(1),
        DomainRole::System,
        0,
        BackendKind::IntelVmx,
        table(1, &mut memory),
    );
    assert_eq!(domain.state, DomainState::Created);
    assert_eq!(domain.start(), Err(Error::InvalidState));
    assert_eq!(domain.prepare_restart(), Err(Error::InvalidState));
    domain.mark_ready().unwrap();
    assert_eq!(domain.mark_ready(), Err(Error::InvalidState));
    domain.start().unwrap();
    assert_eq!(domain.state, DomainState::Running);
    domain.stop().unwrap();
    assert_eq!(domain.mark_crashed(), Err(Error::InvalidState));
    domain.prepare_restart().unwrap();
    domain.start().unwrap();
    domain.mark_crashed().unwrap();
    assert_eq!(domain.stop(), Err(Error::InvalidState));
    assert_eq!(domain.state, DomainState::Crashed);
}

#[test]
fn a_new_domain_starts_at_its_entry() {
    let (_, mut domains) = three();
    let mut first = domains.remove(0);
    assert_eq!(first.guest.boot_mode, GuestBootMode::Long64);
    assert_eq!(first.guest.entry, 0x1_0000);
    assert_eq!(first.guest.stack, 96 * 4096 - 0x5_0000 - 16);
    assert_eq!(first.guest.boot_info, DOMAIN_BOOT_INFO_GPA);
    assert_eq!(first.guest.nested_root, TABLES | 0x1e);
    let guest = first.guest;
    assert_eq!(first.enter(), Entry::Start(guest));
    assert_eq!(
        first.enter(),
        Entry::Resume { kind: ResumeKind::Hypercall, result: HYPERCALL_SUCCESS }
    );
}

#[test]
fn boot_information_describes_the_domain() {
    let (_, domains) = three();
    let framebuffer = BootFramebuffer {
        address: 0x1000_0000,
        size: 0x1000,
        width: 64,
        height: 4,
        stride: 64,
        format: 1,
    };
    let info = domain_boot_info(&domains[1], (0x5000, 0x30), &[9; 32], Some(framebuffer));
    assert_eq!(info.domain_id, 2);
    assert_eq!(info.role, 2);
    assert_eq!(info.backend, 1);
    assert_eq!(info.memory_size, 96 * 4096);
    assert_eq!((info.boot_module_start, info.boot_module_size), (0x5000, 0x30));
    assert_eq!(info.grant_window_start, 80 * 4096);
    assert_eq!(info.device_window_start, DEVICE_WINDOW_START);
    assert_eq!(info.device_window_size, 0xff_f000_0000);
    assert_eq!(info.capabilities, 3);
    assert_eq!(info.entropy_seed, derive_domain_entropy(&[9; 32], 2, 0));
    assert_eq!(info.framebuffer, Some(framebuffer));
}

#[test]
fn interrupts_wait_for_a_pending_fault() {
    let (_, mut domains) = three();
    let runtime = &mut domains[0];
    assert_eq!(runtime.plan_interrupt(None, true), InterruptPlan::Nothing);
    assert_eq!(runtime.plan_interrupt(Some(0x40), true), InterruptPlan::Inject(0x40));
    assert_eq!(runtime.plan_interrupt(Some(0x40), false), InterruptPlan::OpenWindow);
    runtime.msr_read(None, None);
    assert_eq!(runtime.resume_kind, ResumeKind::GeneralProtection);
    assert!(!runtime.takes_interrupts());
    assert_eq!(runtime.plan_interrupt(Some(0x40), true), InterruptPlan::Nothing);
    runtime.msr_read(None, Some(5));
    assert_eq!(runtime.resume_kind, ResumeKind::MsrRead(5));
    runtime.msr_read(Some(6), Some(5));
    assert_eq!(runtime.resume_kind, ResumeKind::MsrRead(6));
    runtime.msr_written(false, true);
    assert_eq!(runtime.resume_kind, ResumeKind::MsrWrite);
    runtime.msr_written(false, false);
    assert_eq!(runtime.resume_kind, ResumeKind::GeneralProtection);
}

#[test]
fn exits_say_what_to_do() {
    let (_, mut domains) = three();
    let runtime = &mut domains[0];
    let mut preempted = exit(VmExitReason::Preempted, [0; 3]);
    assert_eq!(runtime.exited(&preempted), ExitAction::Continue { acknowledge: None });
    assert_eq!(runtime.preemption_count, 1);
    preempted.fault_info = 0x8000_0051;
    assert_eq!(runtime.exited(&preempted), ExitAction::Continue { acknowledge: Some(0x51) });
    assert_eq!(runtime.resume_kind, ResumeKind::WithoutAdvance);
    runtime.exited(&exit(VmExitReason::Halt, [0; 3]));
    assert_eq!(runtime.resume_kind, ResumeKind::Halted);
    let mut control = exit(VmExitReason::ControlRegisterWrite, [0; 3]);
    control.fault_info = 0x34;
    control.fault_address = 0x20;
    runtime.exited(&control);
    assert_eq!(
        runtime.resume_kind,
        ResumeKind::ControlRegisterWrite { register: 4, value: 0x20 }
    );
    let mut fault = exit(VmExitReason::NestedPageFault, [0; 3]);
    fault.raw_reason = 48;
    fault.fault_address = 0xdead_0000;
    fault.fault_info = 2;
    assert_eq!(
        runtime.exited(&fault),
        ExitAction::Crash { raw_reason: 48, address: 0xdead_0000, info: 2 }
    );
    let mut write = exit(VmExitReason::MsrWrite, [0; 3]);
    write.msr = 0x10;
    write.msr_value = 77;
    assert_eq!(runtime.exited(&write), ExitAction::WriteMsr { msr: 0x10, word: 77 });
    assert_eq!(runtime.exited(&exit(VmExitReason::Hypercall, [0; 3])), ExitAction::Hypercall);
    assert_eq!(runtime.resume_kind, ResumeKind::Hypercall);
    runtime.identify(0x4000_0000, 0, Some(2_000_000_000));
    assert!(matches!(runtime.resume_kind, ResumeKind::Cpuid(_)));
    assert_eq!(paging_state(0x1_8000_0011, 0x2_0000_3000), 0x8000_0011_0000_3000);
}

#[test]
fn a_crash_touches_one_domain() {
    let (_, mut domains) = three();
    let mut runnable = vec![true; 3];
    assert_eq!(isolate_crashed_domain(&mut domains, &mut runnable, 1, 48, 0x1000, 7), Ok(()));
    for index in [0, 2] {
        assert_eq!(domains[index].domain.state, DomainState::Running);
        assert!(domains[index].crash_info.is_none());
    }
    assert_eq!(runnable, vec![true, false, true]);
    let info = domains[1].crash_info.unwrap();
    assert_eq!(info.status, DOMAIN_CRASH_STATUS_CRASHED);
    assert_eq!((info.domain_id, info.raw_reason), (2, 48));
    assert_eq!((info.fault_address, info.fault_info), (0x1000, 7));
    assert!(!domain_is_running(&domains, 2));
    assert_eq!(
        isolate_crashed_domain(&mut domains, &mut runnable, 1, 48, 0x1000, 7),
        Err(Stage::DomainCrashTransition)
    );
    assert_eq!(find_domain(&domains, 3), Some(2));
    assert_eq!(find_domain(&domains, 4), None);
    assert_eq!(notify_system_domain(&domains), Some(0));
    isolate_crashed_domain(&mut domains, &mut runnable, 0, 1, 2, 3).unwrap();
    assert_eq!(notify_system_domain(&domains), None);
}

#[test]
fn restarts_are_bounded() {
    let (_, mut domains) = three();
    let mut runnable = vec![true; 3];
    assert!(!domains[0].should_restart(true));
    for count in 1..=2 {
        isolate_crashed_domain(&mut domains, &mut runnable, 2, 48, 0, 0).unwrap();
        assert!(domains[2].should_restart(true));
        assert!(!domains[2].should_restart(false));
        restart_domain(&mut domains, &mut runnable, 2, kernel()).unwrap();
        assert_eq!(domains[2].restart_count, count);
        assert_eq!(domains[2].guest.entry, 0x2_0000);
        assert_eq!(domains[2].guest.boot_info, DOMAIN_BOOT_INFO_GPA);
        assert!(!domains[2].started);
        assert!(runnable[2]);
        let info = domains[2].crash_info.unwrap();
        assert_eq!((info.status, info.restart_count), (DOMAIN_CRASH_STATUS_RESTARTED, count));
    }
    assert!(!domains[2].should_restart(true));
    assert_eq!(
        restart_domain(&mut domains, &mut runnable, 2, kernel()),
        Err(Stage::DomainRestartTransition)
    );
    stop_domain(&mut domains, &mut runnable, 2).unwrap();
    assert_eq!(domains[2].domain.state, DomainState::Stopped);
    assert_eq!(stop_domain(&mut domains, &mut runnable, 2), Err(Stage::DomainStop));
}

fn channel(domain_a: u32, port_a: u32, domain_b: u32, port_b: u32) -> ManifestEventChannel {
    ManifestEventChannel { domain_a, port_a, domain_b, port_b }
}

#[test]
fn channels_come_back_to_running_peers() {
    let (_, mut domains) = three();
    let mut runnable = vec![true; 3];
    let channels = vec![channel(1, 1, 3, 1), channel(2, 1, 3, 2)];
    let mut events = EventChannelTable::new();
    assert_eq!(connect_channels(&mut events, &channels), Ok(()));
    events.disconnect_domain(DomainId::new(3));
    isolate_crashed_domain(&mut domains, &mut runnable, 1, 0, 0, 0).unwrap();
    assert_eq!(reconnect_domain_channels(2, &domains, &mut events, &channels), Ok(()));
    assert_eq!(events.send(DomainId::new(3), 1).unwrap().domain, DomainId::new(1));
    assert!(events.send(DomainId::new(3), 2).is_err());
    assert_eq!(connect_channels(&mut events, &channels), Err(Stage::EventChannelManifest));
}

#[test]
fn a_device_interrupt_wakes_its_domain() {
    let (_, mut domains) = three();
    let mut runnable = vec![true, false, true];
    domains[1].waiting = true;
    assert_eq!(route_interrupt(&mut domains, &mut runnable, 2), Ok(1));
    assert!(runnable[1]);
    assert!(!domains[1].waiting);
    assert_eq!(route_interrupt(&mut domains, &mut runnable, 9), Err(Stage::PciIrqRouting));
}

#[test]
fn mappings_of_an_ended_domain_are_restored() {
    let (mut memory, domains) = three();
    let mut grants = GrantTable::new();
    let reference = grants.create(DomainId::new(3), DomainId::new(1), 0x8000, true).unwrap();
    grants.map(DomainId::new(1), reference, 80 * 4096).unwrap();
    let entry = TABLES + 0x6000 + 8 * 80;
    let own = memory.read(entry);
    domains[0]
        .domain
        .nested_pages
        .map_shared_page(80 * 4096, 0x8000, true, &mut memory)
        .unwrap();
    assert_ne!(memory.read(entry), own);
    let (restored, failure) = cleanup_domain_grants(&domains, 2, &mut grants);
    assert_eq!(restored, vec![RestoredPage { target: 0, page: 80 * 4096 }]);
    assert_eq!(failure, None);
    assert!(!grants.references_domain(DomainId::new(3)));
    assert_eq!(restore_pages(&domains, &restored, &mut memory), Ok(()));
    assert_eq!(memory.read(entry), own);
    let outside = vec![RestoredPage { target: 0, page: 96 * 4096 }];
    assert_eq!(restore_pages(&domains, &outside, &mut memory), Err(Error::InvalidPage));
}

#[test]
fn the_outcome_counts_domains() {
    let (_, mut domains) = three();
    let mut runnable = vec![true; 3];
    for index in 0..3 {
        stop_domain(&mut domains, &mut runnable, index).unwrap();
    }
    assert_eq!(final_outcome(&domains), Outcome::Complete { stopped: 3 });
}
