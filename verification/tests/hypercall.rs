use mboot::abi::{
    DOMAIN_CAPABILITY_DEVICE_CLAIM, DOMAIN_CAPABILITY_DEVICE_QUERY, EVENT_CHANNEL_NO_EVENT,
    EVENT_CHANNEL_VECTOR, GRANT_FLAG_WRITABLE, HYPERCALL_INVALID_ARGUMENT, HYPERCALL_SUCCESS,
    PCI_DEVICE_INFO_SIZE,
};
use mboot::device::DeviceTable;
use mboot::domain::{Domain, DomainId, DomainRole};
use mboot::event::{EventChannelTable, EventDelivery};
use mboot::grant::{GrantError, GrantTable};
use mboot::hypercall::{
    console_request, device_activate_request, device_activated, device_claim_report,
    device_config_read, device_query, device_query_report, device_request, device_resource_query,
    domain_crash_query, event_irq_enable, event_poll, event_send, event_wait, grant_create,
    grant_map, grant_query, grant_reference, grant_revoke, grant_unmap, handle_console_write,
    irq_ended, irq_mask_request, irq_priority_request, may_end_interrupt, ready, wait, yield_vcpu,
    EventSent, ReadyReport,
};
use mboot::manifest::{
    ManifestDevice, ManifestDeviceKind, ManifestImageFormat, ManifestRestartPolicy,
};
use mboot::memory::{NestedPageResources, NestedPageTable, ENTRY_COUNT, EPT_LEAF_WRITE_BACK};
use mboot::pci::{
    AssignmentTable, PciBar, PciDescriptor, PciFunction, PciInterruptMode,
};
use mboot::physical::PhysicalMemory;
use mboot::supervisor::{
    isolate_crashed_domain, LoadedKernel, RestartRule, RuntimeDomain, VcpuPages,
};
use mboot::{BackendKind, VmExit, VmExitReason};

const TABLES: u64 = 0x100_0000;
const GUEST: u64 = 0x10_0000;
const PAGES: usize = 96;

fn memory(domains: u32) -> PhysicalMemory {
    let mut memory = PhysicalMemory::new();
    for id in 1..=domains as u64 {
        memory.add_window(id * TABLES, vec![0; 9 * ENTRY_COUNT]);
        memory.add_window(id * TABLES + GUEST, vec![0; PAGES * ENTRY_COUNT]);
    }
    memory
}

fn table(id: u32, memory: &mut PhysicalMemory) -> NestedPageTable {
    let base = id as u64 * TABLES;
    let resources = NestedPageResources {
        root: base,
        level3: base + 0x1000,
        level3_pages: 1,
        level2: base + 0x2000,
        level2_pages: 4,
        level1: base + 0x6000,
        level1_pages: 1,
        device_level1: base + 0x7000,
        device_level1_pages: 1,
        device_state: base + 0x8000,
        guest_base: base + GUEST,
        guest_pages: PAGES,
    };
    NestedPageTable::initialize(BackendKind::IntelVmx, resources, memory).unwrap()
}

fn runtime(
    id: u32,
    role: DomainRole,
    capabilities: u64,
    memory: &mut PhysicalMemory,
) -> RuntimeDomain {
    let mut domain = Domain::new(
        DomainId::new(id),
        role,
        capabilities,
        BackendKind::IntelVmx,
        table(id, memory),
    );
    domain.mark_ready().unwrap();
    domain.start().unwrap();
    RuntimeDomain::new(
        domain,
        ManifestImageFormat::NativeElf,
        LoadedKernel { page_table_root: 0, entry: 0x1_0000, loader_info: 0 },
        VcpuPages { msr_permission_map: 0x5000, msr_state_page: 0x6000 },
        RestartRule { policy: ManifestRestartPolicy::OnFailure, max_restarts: 2 },
    )
}

fn call(arguments: [u64; 3]) -> VmExit {
    VmExit {
        reason: VmExitReason::Hypercall,
        raw_reason: 0,
        hypercall_number: 0,
        arg0: arguments[0],
        arg1: arguments[1],
        arg2: arguments[2],
        msr: 0,
        msr_value: 0,
        cpuid_leaf: 0,
        cpuid_subleaf: 0,
        fault_address: 0,
        fault_info: 0,
    }
}

const WINDOW: u64 = 80 * 4096;
const RIGHTS: u64 = DOMAIN_CAPABILITY_DEVICE_QUERY | DOMAIN_CAPABILITY_DEVICE_CLAIM;

fn three() -> (PhysicalMemory, Vec<RuntimeDomain>) {
    let mut memory = memory(3);
    let domains = vec![
        runtime(1, DomainRole::System, 0, &mut memory),
        runtime(2, DomainRole::Hardware, RIGHTS, &mut memory),
        runtime(3, DomainRole::Application, 0, &mut memory),
    ];
    (memory, domains)
}

fn devices() -> DeviceTable {
    let functions =
        [PciFunction { requester: 0x10, class: 0x0c, subclass: 3, ..PciFunction::default() }];
    let policy = ManifestDevice {
        segment: 0,
        requester: 0x10,
        kind: ManifestDeviceKind::Usb,
        flags: 0,
        domain_id: 2,
        storage_disk_guid: [0; 16],
        storage_partition_type_guid: [0; 16],
        storage_partition_guid: [0; 16],
    };
    DeviceTable::from_pci(&functions, None, &[policy]).unwrap()
}

fn assignments() -> AssignmentTable {
    let mut descriptor = PciDescriptor { requester: 0x10, ..PciDescriptor::default() };
    descriptor.bars[0] =
        PciBar { index: 1, physical_address: 0x8000_0000, length: 0x4000, guest_address: 0 };
    descriptor.bar_count = 1;
    let mut table = AssignmentTable::new();
    table.insert(2, descriptor, 0x1000_0000, 0x8_0000_0000).unwrap();
    table
}

#[test]
fn only_hardware_domains_see_devices() {
    let (_, domains) = three();
    let devices = devices();
    let query = call([0, 0x2000, PCI_DEVICE_INFO_SIZE]);
    let (destination, info) = device_query(&domains[1], &devices, &query).unwrap();
    assert_eq!(destination, 2 * TABLES + GUEST + 0x2000);
    assert_eq!(info.requester, 0x10);
    assert_eq!(device_query(&domains[0], &devices, &query), None);
    assert_eq!(device_query(&domains[1], &devices, &call([1, 0x2000, 64])), None);
    assert_eq!(device_query(&domains[1], &devices, &call([0, 0x2000, 63])), None);
    assert_eq!(device_query(&domains[1], &devices, &call([0, 96 * 4096 - 63, 64])), None);
    assert_eq!(device_query(&domains[1], &devices, &call([0, u64::MAX, 64])), None);
}

#[test]
fn the_screen_shows_what_hardware_domains_look_for() {
    let (_, domains) = three();
    let devices = devices();
    let report = |index: usize, place| {
        device_query_report(&domains[index], &devices, &call([place, u64::MAX, 0]))
    };
    assert_eq!(report(1, 0), Some((0, Some(0x10))));
    assert_eq!(report(1, 7), Some((7, None)));
    assert_eq!(report(1, 1 << 20), Some((0xffff, None)));
    assert_eq!(report(0, 0), None);
    assert_eq!(device_claim_report(&domains[1], &call([0x10, 1, 1])), Some(0x10));
    assert_eq!(device_claim_report(&domains[1], &call([0, 0, 0])), None);
    assert_eq!(device_claim_report(&domains[0], &call([0x10, 0, 0])), None);
}

#[test]
fn device_requests_need_the_right_to_claim() {
    let (_, mut domains) = three();
    assert_eq!(device_request(&domains[1], &call([0x10, 0, 0])), Some(0x10));
    assert_eq!(device_request(&domains[1], &call([0, 0, 0])), None);
    assert_eq!(device_request(&domains[1], &call([0x1_0010, 0, 0])), None);
    assert_eq!(device_request(&domains[1], &call([0x10, 1, 0])), None);
    assert_eq!(device_request(&domains[2], &call([0x10, 0, 0])), None);
    domains[1].domain.capabilities = DOMAIN_CAPABILITY_DEVICE_QUERY;
    assert_eq!(device_request(&domains[1], &call([0x10, 0, 0])), None);
}

#[test]
fn configuration_and_resources_are_of_owned_functions() {
    let (_, domains) = three();
    let assignments = assignments();
    assert_eq!(
        device_config_read(&domains[1], &assignments, &call([0x10, 4, 0])),
        Some(0x8000_1004)
    );
    assert_eq!(device_config_read(&domains[1], &assignments, &call([0x10, 5, 0])), None);
    assert_eq!(device_config_read(&domains[1], &assignments, &call([0x18, 4, 0])), None);
    assert_eq!(device_config_read(&domains[0], &assignments, &call([0x10, 4, 0])), None);
    let (destination, resource) =
        device_resource_query(&domains[1], &assignments, &call([0x10, 0, 0x3000])).unwrap();
    assert_eq!(destination, 2 * TABLES + GUEST + 0x3000);
    assert_eq!((resource.bar_index, resource.length), (1, 0x4000));
    assert_eq!(resource.guest_address, 0x8000_0000);
    assert_eq!(resource.flags, 3);
    assert_eq!(device_resource_query(&domains[1], &assignments, &call([0x10, 1, 0])), None);
}

#[test]
fn a_claimed_function_is_activated_once() {
    let (_, domains) = three();
    let mut devices = devices();
    let mut assignments = assignments();
    let request = call([0x10, 0x50, 0x51]);
    assert_eq!(device_activate_request(&domains[1], &devices, &request), None);
    devices.claim(2, 0x10).unwrap();
    assert_eq!(
        device_activate_request(&domains[1], &devices, &request),
        Some((0x10, 0x50, 0x51))
    );
    assert_eq!(device_activate_request(&domains[1], &devices, &call([0x10, 0x100, 0])), None);
    assert_eq!(
        device_activated(
            &mut devices,
            &mut assignments,
            2,
            0x10,
            [0x50, 0x51],
            PciInterruptMode::Msi
        ),
        Ok(())
    );
    assert!(assignments.has_active_for_domain(2));
    assert!(may_end_interrupt(&domains[1], &assignments, &call([0; 3])));
    assert!(!may_end_interrupt(&domains[0], &assignments, &call([0; 3])));
    assert!(device_activated(
        &mut devices,
        &mut assignments,
        2,
        0x10,
        [0x50, 0x51],
        PciInterruptMode::Msi
    )
    .is_err());
}

#[test]
fn the_system_domain_learns_of_crashes() {
    let (_, mut domains) = three();
    let mut runnable = vec![true; 3];
    let query = call([3, 0x1000, 40]);
    assert_eq!(domain_crash_query(&domains, 0, &query), None);
    isolate_crashed_domain(&mut domains, &mut runnable, 2, 48, 0x9000, 1).unwrap();
    let (destination, info) = domain_crash_query(&domains, 0, &query).unwrap();
    assert_eq!(destination, TABLES + GUEST + 0x1000);
    assert_eq!((info.domain_id, info.fault_address), (3, 0x9000));
    assert_eq!(domain_crash_query(&domains, 1, &query), None);
    assert_eq!(domain_crash_query(&domains, 0, &call([3, 0x1000, 39])), None);
    assert_eq!(domain_crash_query(&domains, 0, &call([9, 0x1000, 40])), None);
}

#[test]
fn console_messages_are_text_in_domain_memory() {
    let (_, domains) = three();
    assert_eq!(
        console_request(&domains[0], &call([0x100, 5, 0])),
        Some((TABLES + GUEST + 0x100, 5))
    );
    assert_eq!(console_request(&domains[0], &call([0x100, 4097, 0])), None);
    assert_eq!(console_request(&domains[0], &call([96 * 4096 - 4, 5, 0])), None);
    assert_eq!(
        handle_console_write(DomainRole::Application, b"hello"),
        Some(("hello", None))
    );
    assert_eq!(handle_console_write(DomainRole::System, &[0x68, 0xff]), None);
    assert_eq!(
        handle_console_write(DomainRole::System, b"DISPLAY\nboot"),
        Some(("DISPLAY\nboot", Some(&b"boot"[..])))
    );
    assert_eq!(
        handle_console_write(DomainRole::Application, b"DISPLAY\nboot"),
        Some(("DISPLAY\nboot", None))
    );
    assert_eq!(
        handle_console_write(DomainRole::Hardware, b"DISPLAY boot"),
        Some(("DISPLAY boot", None))
    );
}

#[test]
fn a_domain_is_ready_once() {
    let (_, mut domains) = three();
    assert_eq!(ready(&mut domains[0], &call([1, 0, 0]), true, false), None);
    assert_eq!(
        ready(&mut domains[0], &call([0; 3]), true, false),
        Some(ReadyReport::System { hand_off: true })
    );
    assert!(domains[0].ready);
    assert_eq!(ready(&mut domains[0], &call([0; 3]), true, false), None);
    assert_eq!(domains[0].pending_result, HYPERCALL_INVALID_ARGUMENT);
    assert_eq!(
        ready(&mut domains[1], &call([0; 3]), true, false),
        Some(ReadyReport::Hardware { hand_off: false })
    );
    assert_eq!(ready(&mut domains[2], &call([0; 3]), true, true), None);
    yield_vcpu(&mut domains[2]);
    assert_eq!((domains[2].yield_count, domains[2].pending_result), (1, HYPERCALL_SUCCESS));
    domains[2].answer(17);
    assert_eq!(domains[2].pending_result, 17);
}

#[test]
fn the_system_domain_waits_only_when_ready() {
    let (_, mut domains) = three();
    let mut runnable = vec![true; 3];
    wait(&mut domains, &mut runnable, 0);
    assert!(runnable[0]);
    assert_eq!(domains[0].pending_result, HYPERCALL_INVALID_ARGUMENT);
    domains[0].ready = true;
    wait(&mut domains, &mut runnable, 0);
    assert!(!runnable[0] && domains[0].waiting);
    wait(&mut domains, &mut runnable, 2);
    assert_eq!(runnable, vec![false, true, false]);
}

#[test]
fn a_grant_is_mapped_and_taken_back() {
    let (mut memory, domains) = three();
    let mut grants = GrantTable::new();
    let page = WINDOW + 0x1000;
    let create = call([page, 3, GRANT_FLAG_WRITABLE]);
    let made = grant_create(&domains, 0, &mut grants, &create).unwrap().unwrap();
    let number = grant_query(&domains[2], &grants, &call([0; 3])).unwrap();
    assert_eq!(number, made.get());
    assert_eq!(grant_query(&domains[2], &grants, &call([1, 0, 0])), None);
    assert_eq!(grant_query(&domains[2], &grants, &call([0, 1, 0])), None);
    let reference = grant_reference(&call([number as u64, 0, 0])).unwrap();
    let leaf = 3 * TABLES + 0x6000 + 8 * 80;
    let before = memory.read(leaf);
    assert_eq!(before, (3 * TABLES + GUEST + WINDOW) | EPT_LEAF_WRITE_BACK);
    let map = call([number as u64, WINDOW, 0]);
    let mapping = grant_map(&domains[2], &mut grants, &mut memory, reference, &map).unwrap();
    assert_eq!(mapping.host_page, TABLES + GUEST + page);
    assert_eq!(memory.read(leaf) & !0xfff, TABLES + GUEST + page);
    assert!(!grant_revoke(&domains[0], &mut grants, reference, &call([0; 3])));
    assert_eq!(
        grant_unmap(&domains[2], &mut grants, &mut memory, reference, &call([number as u64, 0, 0])),
        Ok(Some(mapping))
    );
    assert_eq!(memory.read(leaf), before);
    assert!(grant_revoke(&domains[0], &mut grants, reference, &call([0; 3])));
    assert_eq!(grant_query(&domains[2], &grants, &call([0; 3])), None);
}

#[test]
fn only_grant_window_pages_are_granted() {
    let (mut memory, mut domains) = three();
    let mut grants = GrantTable::new();
    assert!(grant_create(&domains, 0, &mut grants, &call([0x1000, 3, 1])).is_none());
    assert!(grant_create(&domains, 0, &mut grants, &call([WINDOW, 9, 1])).is_none());
    assert!(grant_create(&domains, 0, &mut grants, &call([WINDOW, 3, 2])).is_none());
    assert_eq!(
        grant_create(&domains, 0, &mut grants, &call([WINDOW, 1, 0])),
        Some(Err(GrantError::InvalidTarget))
    );
    let reference =
        grant_create(&domains, 0, &mut grants, &call([WINDOW, 3, 0])).unwrap().unwrap();
    let outside = call([0, 0x1000, 0]);
    assert_eq!(grant_map(&domains[2], &mut grants, &mut memory, reference, &outside), None);
    assert_eq!(grant_reference(&call([0, 0, 0])), None);
    assert_eq!(grant_reference(&call([1 << 32, 0, 0])), None);
    let mut runnable = vec![true; 3];
    isolate_crashed_domain(&mut domains, &mut runnable, 2, 0, 0, 0).unwrap();
    assert!(grant_create(&domains, 0, &mut grants, &call([WINDOW, 3, 1])).is_none());
}

fn events() -> EventChannelTable {
    let mut table = EventChannelTable::new();
    table.connect(DomainId::new(1), 5, DomainId::new(3), 6).unwrap();
    table
}

#[test]
fn an_event_wakes_a_waiting_domain() {
    let (_, mut domains) = three();
    let mut runnable = vec![true; 3];
    let mut events = events();
    assert!(!event_wait(&mut domains, &mut runnable, &mut events, 2, &call([0; 3])));
    assert!(!runnable[2] && domains[2].waiting);
    let sent = event_send(&mut domains, &mut runnable, &mut events, 0, &call([5, 0, 0]));
    assert_eq!(
        sent,
        EventSent {
            delivery: Some(EventDelivery {
                domain: DomainId::new(3),
                port: 6,
                first_delivery: true
            }),
            raise: None,
        }
    );
    assert!(runnable[2] && !domains[2].waiting);
    assert_eq!(domains[2].pending_result, 6);
    assert_eq!(domains[0].pending_result, HYPERCALL_SUCCESS);
    assert!(!events.has_pending(DomainId::new(3)));
}

#[test]
fn an_event_interrupts_a_running_domain() {
    let (_, mut domains) = three();
    let mut runnable = vec![true; 3];
    let mut events = events();
    assert_eq!(event_irq_enable(&mut domains[2], &events, &call([0; 3])), Some(false));
    assert_eq!(event_irq_enable(&mut domains[2], &events, &call([0; 3])), None);
    let sent = event_send(&mut domains, &mut runnable, &mut events, 0, &call([5, 0, 0]));
    assert_eq!(sent.raise, Some(2));
    assert_eq!(
        irq_ended(&mut domains[2], &events, Some(EVENT_CHANNEL_VECTOR)),
        Some(EVENT_CHANNEL_VECTOR)
    );
    event_poll(&mut domains[2], &mut events, &call([0; 3]));
    assert_eq!(domains[2].pending_result, 6);
    assert_eq!(irq_ended(&mut domains[2], &events, Some(EVENT_CHANNEL_VECTOR)), None);
    assert_eq!(irq_ended(&mut domains[2], &events, None), None);
    assert_eq!(domains[2].pending_result, HYPERCALL_INVALID_ARGUMENT);
    event_poll(&mut domains[2], &mut events, &call([0; 3]));
    assert_eq!(domains[2].pending_result, EVENT_CHANNEL_NO_EVENT);
}

#[test]
fn refused_events_leave_nothing_behind() {
    let (_, mut domains) = three();
    let mut runnable = vec![true; 3];
    let mut events = events();
    let nothing = EventSent { delivery: None, raise: None };
    for refused in [[5, 1, 0], [7, 0, 0], [1 << 32, 0, 0]] {
        let sent = event_send(&mut domains, &mut runnable, &mut events, 0, &call(refused));
        assert_eq!(sent, nothing);
        assert_eq!(domains[0].pending_result, HYPERCALL_INVALID_ARGUMENT);
    }
    isolate_crashed_domain(&mut domains, &mut runnable, 2, 0, 0, 0).unwrap();
    assert_eq!(
        event_send(&mut domains, &mut runnable, &mut events, 0, &call([5, 0, 0])),
        nothing
    );
    assert!(!events.has_pending(DomainId::new(3)));
}

#[test]
fn interrupt_requests_name_a_vector() {
    assert_eq!(irq_mask_request(&call([0x40, 1, 0])), Some((0x40, true)));
    assert_eq!(irq_mask_request(&call([0x40, 0, 0])), Some((0x40, false)));
    assert_eq!(irq_mask_request(&call([0x100, 1, 0])), None);
    assert_eq!(irq_mask_request(&call([0x40, 2, 0])), None);
    assert_eq!(irq_priority_request(&call([0xff, 0, 0])), Some(0xff));
    assert_eq!(irq_priority_request(&call([0x100, 0, 0])), None);
}
