use mboot::pci::interrupt::{
    active_device_vector, bus_master_command, bus_master_off, bus_master_on, enable_msi,
    enable_msix, function_level_reset, memory_command, message_address, msix_table, pending_bit,
    prepare_msix, reset_wait_ticks,
};
use mboot::pci::probe::{
    check_endpoint, find_capability, intel_graphics_stolen_range,
    intel_graphics_stolen_range_from_registers, next_sizing, probe_capabilities, probe_descriptor,
    BarSizing, ConfigSpace, IntelGraphicsIdentity,
};
use mboot::pci::quarantine::{
    function_count, function_has_bus_master_control, without_bus_master, BusScan,
    FunctionRegisters, QuarantineReport,
};
use mboot::pci::{
    config_address, physical_vector, requester_id, requester_parts, select_interrupt_mode,
    valid_guest_vectors, AssignmentTable, PciBar, PciDescriptor, PciError, PciInterruptMode,
    CAPABILITY_MSI, CAPABILITY_MSIX, DEVICE_VECTOR_LAST, INTEL_VENDOR_ID, MAX_ASSIGNMENTS,
    MSIX_ENABLE,
};

#[test]
fn configuration_address_keeps_bdf_and_aligned_offset() {
    assert_eq!(config_address(2, 3, 4, 0x0f), 0x8002_1c0c);
}

#[test]
fn quarantine_changes_only_bus_master_enable() {
    assert_eq!(without_bus_master(0xffff), 0xfffb);
    assert_eq!(without_bus_master(0x0403), 0x0403);
}

#[test]
fn requester_id_uses_the_pci_bdf_layout() {
    assert_eq!(requester_id(0x12, 0x1f, 7), 0x12ff);
}

#[test]
fn bridge_functions_are_not_dma_requester_endpoints() {
    assert!(!function_has_bus_master_control(0x06, 0x00));
    assert!(!function_has_bus_master_control(0x06, 0x01));
    assert!(!function_has_bus_master_control(0x06, 0x04));
    assert!(function_has_bus_master_control(0x03, 0x00));
}

#[test]
fn intel_graphics_range_covers_gtt_and_data_stolen_memory() {
    assert_eq!(
        intel_graphics_stolen_range_from_registers(0x7800_0001, 0x7780_0001, 0x8000_0001),
        Some((0x7780_0000, 0x7fff_ffff))
    );
}

#[test]
fn invalid_intel_graphics_ranges_are_rejected() {
    assert_eq!(intel_graphics_stolen_range_from_registers(0, 0, 0), None);
    assert_eq!(
        intel_graphics_stolen_range_from_registers(0x8000_0000, 0x7f00_0000, 0x8000_0000),
        None
    );
    assert_eq!(
        intel_graphics_stolen_range_from_registers(0x5000_0000, 0x4000_0000, 0x9000_0000),
        None
    );
}

fn descriptor(requester: u16, bar_lengths: &[u64]) -> PciDescriptor {
    let mut descriptor = PciDescriptor {
        requester,
        ..PciDescriptor::default()
    };
    for (index, length) in bar_lengths.iter().copied().enumerate() {
        descriptor.bars[index] = PciBar {
            index: index as u8,
            physical_address: 0x8000_0000 + index as u64 * 0x10_0000,
            length,
            guest_address: 0,
        };
        descriptor.bar_count += 1;
    }
    descriptor
}

#[test]
fn device_windows_preserve_firmware_bar_addresses() {
    let mut assignments = AssignmentTable::new();
    let first = assignments
        .insert(2, descriptor(0x10, &[0x2000]), 0x1000_0000, 0x8_0000_0000)
        .unwrap()[0];
    assert_eq!(first.guest_address, 0x8000_0000);
    let second = assignments
        .insert(2, descriptor(0x18, &[0x1000]), 0x1000_0000, 0x8_0000_0000)
        .unwrap()[0];
    assert_eq!(second.guest_address, 0x8000_0000);
    let other_domain = assignments
        .insert(4, descriptor(0x20, &[0x1000]), 0x1000_0000, 0x8_0000_0000)
        .unwrap()[0];
    assert_eq!(other_domain.guest_address, 0x8000_0000);
    assignments.remove(2, 0x10).unwrap();
    let reused = assignments
        .insert(2, descriptor(0x28, &[0x2000]), 0x1000_0000, 0x8_0000_0000)
        .unwrap()[0];
    assert_eq!(reused.guest_address, 0x8000_0000);
}

#[test]
fn resource_query_exposes_only_the_assigned_bar_range() {
    let mut assignments = AssignmentTable::new();
    assignments
        .insert(2, descriptor(0x10, &[0x4000]), 0x1000_0000, 0x8_0000_0000)
        .unwrap();
    let resource = assignments.resource(2, 0x10, 0).unwrap();
    assert_eq!(resource.guest_address, 0x8000_0000);
    assert_eq!(resource.length, 0x4000);
    assert_eq!(assignments.resource(3, 0x10, 0), None);
}

#[test]
fn bar_larger_than_device_window_is_rejected() {
    let mut assignments = AssignmentTable::new();
    assert_eq!(
        assignments.insert(2, descriptor(0x10, &[0x8_0000]), 0x1b_0000, 0x4_0000),
        Err(PciError::DeviceWindowExhausted)
    );
}

#[test]
fn pending_vectors_route_only_to_active_assignments() {
    let mut assignments = AssignmentTable::new();
    assignments
        .insert(2, descriptor(0x10, &[0x1000]), 0x1000_0000, 0x8_0000_0000)
        .unwrap();
    assert!(!assignments.has_active_for_domain(2));
    assignments.activate(2, 0x10, [0x42, 0x43], PciInterruptMode::MsixSplit).unwrap();
    assert!(assignments.has_active_for_domain(2));
    assert!(!assignments.has_active_for_domain(3));
    let mut routed = assignments.route_pending(0b11).into_iter();
    assert_eq!(routed.next(), Some((2, 0x42)));
    assert_eq!(routed.next(), Some((2, 0x43)));
    assert_eq!(routed.next(), None);
    assert!(assignments.route_pending(0b100).into_iter().next().is_none());
}

#[test]
fn shared_interrupt_routes_only_the_registered_guest_vector() {
    let mut assignments = AssignmentTable::new();
    assignments
        .insert(2, descriptor(0x10, &[0x1000]), 0x1000_0000, 0x8_0000_0000)
        .unwrap();
    assignments.activate(2, 0x10, [0x42, 0], PciInterruptMode::MsixShared).unwrap();
    let mut routed = assignments.route_pending(0b01).into_iter();
    assert_eq!(routed.next(), Some((2, 0x42)));
    assert_eq!(routed.next(), None);
}

#[test]
fn interrupt_mode_prefers_msix_and_falls_back_to_msi() {
    assert_eq!(
        select_interrupt_mode(2, true),
        Some(PciInterruptMode::MsixSplit)
    );
    assert_eq!(
        select_interrupt_mode(1, true),
        Some(PciInterruptMode::MsixShared)
    );
    assert_eq!(select_interrupt_mode(0, true), Some(PciInterruptMode::Msi));
    assert_eq!(select_interrupt_mode(0, false), None);
}

#[test]
fn shared_and_split_guest_vectors_have_distinct_contracts() {
    assert!(valid_guest_vectors(&[0x42, 0], 1));
    assert!(!valid_guest_vectors(&[0x42, 0x43], 1));
    assert!(valid_guest_vectors(&[0x42, 0x43], 2));
    assert!(!valid_guest_vectors(&[0x42, 0x42], 2));
}

#[test]
fn physical_vectors_are_disjoint_between_assignments() {
    assert_eq!(physical_vector(0, 0), 0x50);
    assert_eq!(physical_vector(0, 1), 0x51);
    assert_eq!(physical_vector(1, 0), 0x52);
    assert_eq!(physical_vector(MAX_ASSIGNMENTS - 1, 1), DEVICE_VECTOR_LAST);
}

#[test]
fn requester_parts_undo_the_requester_id() {
    assert_eq!(requester_parts(requester_id(0x12, 0x1f, 7)), Ok((0x12, 0x1f, 7)));
    assert_eq!(requester_parts(0), Err(PciError::InvalidRequester));
}

#[test]
fn a_function_belongs_to_one_assignment() {
    let mut assignments = AssignmentTable::new();
    assignments.insert(2, descriptor(0x10, &[0x1000]), 0x1000_0000, 0x8_0000_0000).unwrap();
    assert_eq!(
        assignments.insert(3, descriptor(0x10, &[0x1000]), 0x1000_0000, 0x8_0000_0000),
        Err(PciError::InvalidState)
    );
    assignments.activate(2, 0x10, [0x42, 0], PciInterruptMode::Msi).unwrap();
    assert!(assignments.has_active());
    assert_eq!(assignments.remove(2, 0x10), Err(PciError::InvalidState));
    assert_eq!(assignments.deactivate(2, 0x10).unwrap()[0].physical_address, 0x8000_0000);
    assert!(!assignments.has_active());
    assert_eq!(assignments.remove(2, 0x10), Ok(()));
    assert_eq!(assignments.remove(2, 0x10), Err(PciError::InvalidState));
}

fn endpoint() -> [u8; 256] {
    let mut bytes = [0u8; 256];
    bytes[0..2].copy_from_slice(&0x8086u16.to_le_bytes());
    bytes[2..4].copy_from_slice(&0x1234u16.to_le_bytes());
    bytes[6] = 0x10;
    bytes[0x34] = 0x50;
    bytes[0x50] = CAPABILITY_MSI;
    bytes[0x51] = 0x70;
    bytes[0x70] = CAPABILITY_MSIX;
    bytes[0x10..0x14].copy_from_slice(&0x8000_0000u32.to_le_bytes());
    bytes[0x14..0x18].copy_from_slice(&0x9000_000cu32.to_le_bytes());
    bytes[0x18..0x1c].copy_from_slice(&1u32.to_le_bytes());
    bytes
}

#[test]
fn endpoints_are_probed_into_descriptors() {
    let config = ConfigSpace::new(endpoint());
    assert_eq!(check_endpoint(0x10, &config), Ok(()));
    assert_eq!(find_capability(&config, CAPABILITY_MSIX), Ok(0x70));
    assert_eq!(find_capability(&config, 0x10), Ok(0));
    let masks = [0xffff_c000, 0xffff_000c, 0xffff_ffff, 0, 0, 0];
    let found = probe_descriptor(0x10, &config, &masks, 3).unwrap();
    assert_eq!(found.bar_count, 2);
    assert_eq!((found.bars[0].physical_address, found.bars[0].length), (0x8000_0000, 0x4000));
    assert_eq!((found.bars[1].index, found.bars[1].length), (1, 0x1_0000));
    assert_eq!(found.bars[1].physical_address, 0x1_9000_0000);
    assert_eq!((found.msi_capability, found.msix_capability), (0x50, 0x70));
    let mut bridge = endpoint();
    bridge[0x0e] = 1;
    assert_eq!(
        check_endpoint(0x10, &ConfigSpace::new(bridge)),
        Err(PciError::UnsupportedHeader)
    );
}

fn sized(bytes: [u8; 256], masks: [u32; 6]) -> Vec<(u8, bool)> {
    let config = ConfigSpace::new(bytes);
    let mut found = Vec::new();
    let mut last = None;
    while let Some(sizing) = next_sizing(&config, &masks, last) {
        found.push((sizing.index, sizing.wide));
        last = Some(sizing);
    }
    found
}

#[test]
fn only_memory_bars_are_sized() {
    let masks = [0xffff_c000, 0xffff_000c, 0xffff_ffff, 0xffff_f000, 0, 0];
    assert_eq!(sized(endpoint(), masks), vec![(0, false), (1, true)]);
    // The high half of a wide BAR looks like a wide BAR itself; an I/O BAR follows.
    let mut bytes = endpoint();
    bytes[0x10..0x14].copy_from_slice(&0x9000_000cu32.to_le_bytes());
    bytes[0x14..0x18].copy_from_slice(&4u32.to_le_bytes());
    bytes[0x18..0x1c].copy_from_slice(&0xc001u32.to_le_bytes());
    let masks = [0xffff_000c, 0xffff_ffff, 0, 0, 0, 0];
    assert_eq!(sized(bytes, masks), vec![(0, true)]);
    bytes[0x18..0x1c].copy_from_slice(&0u32.to_le_bytes());
    assert_eq!(sized(bytes, masks), vec![(0, true)]);
}

#[test]
fn nothing_is_sized_behind_a_refused_bar() {
    let mut bytes = endpoint();
    bytes[0x1c..0x20].copy_from_slice(&0xa000_0000u32.to_le_bytes());
    let masks = [0xffff_ff00, 0xffff_000c, 0xffff_ffff, 0xffff_f000, 0, 0];
    assert_eq!(sized(bytes, masks), vec![(0, false)]);
    let config = ConfigSpace::new(bytes);
    assert_eq!(probe_descriptor(0x10, &config, &masks, 3).err(), Some(PciError::InvalidBar));
    let first = BarSizing { index: 0, wide: false };
    assert_eq!(next_sizing(&config, &masks, Some(first)), None);
    bytes[0x10] = 2;
    assert_eq!(sized(bytes, masks), Vec::new());
}

#[test]
fn broken_capabilities_are_found_first() {
    let found = probe_capabilities(0x10, &ConfigSpace::new(endpoint())).unwrap();
    assert_eq!((found.msi_capability, found.msix_capability), (0x50, 0x70));
    assert_eq!((found.requester, found.bar_count), (0x10, 0));
    let mut bytes = endpoint();
    bytes[0x71] = 0x50;
    bytes[0x50] = 0x09;
    assert_eq!(
        probe_capabilities(0x10, &ConfigSpace::new(bytes)).err(),
        Some(PciError::InvalidState)
    );
}

#[test]
fn intel_graphics_memory_is_reserved_only_for_that_device() {
    let identity = IntelGraphicsIdentity {
        bridge_vendor: INTEL_VENDOR_ID,
        bridge_class: 6,
        display_vendor: INTEL_VENDOR_ID,
        display_class: 3,
    };
    assert_eq!(
        intel_graphics_stolen_range(0x10, &identity, 0x7800_0001, 0x7780_0001, 0x8000_0001),
        Some((0x7780_0000, 0x7fff_ffff))
    );
    assert_eq!(
        intel_graphics_stolen_range(0x18, &identity, 0x7800_0001, 0x7780_0001, 0x8000_0001),
        None
    );
}

#[test]
fn interrupts_are_programmed_through_the_local_apic() {
    assert_eq!(message_address(0xfee0_0800, 0, 3), Ok(0xfee0_3000));
    assert!(message_address(0, 0, 3).is_err());
    assert_eq!(prepare_msix(7, 2), Ok(0x4007));
    assert!(prepare_msix(0, 2).is_err());
    let mut found = descriptor(0x10, &[0x4000]);
    found.msix_capability = 0x70;
    assert_eq!(msix_table(&found, 0x2000, 2), Ok(0x8000_2000));
    assert!(msix_table(&found, 0x2001, 2).is_err());
    assert!(msix_table(&found, 0x3ff8, 2).is_err());
    let plan = enable_msix(0x8000_2000, MSIX_ENABLE, 0xfee0_3000, &[0x50, 0x51], 2);
    assert_eq!(plan.unmask.len(), 2);
    assert_eq!(plan.unmask[1].address, 0x8000_201c);
    found.msi_capability = 0x50;
    assert!(!enable_msi(&found, 0, 0xfee0_3000, 0x50).unwrap().is_empty());
    assert!(enable_msi(&descriptor(0x10, &[]), 0, 0xfee0_3000, 0x50).is_err());
}

#[test]
fn function_commands_and_resets() {
    let mut found = descriptor(0x10, &[]);
    found.original_command = 0x0005;
    let memory = memory_command(&found);
    assert_eq!(memory & 7, 3);
    assert_eq!(bus_master_command(memory), memory | 4);
    assert_eq!(bus_master_on(4), Ok(()));
    assert_eq!(bus_master_off(4), Err(PciError::RegisterWriteFailed));
    assert_eq!(function_level_reset(1 << 28, 1), Some(0x8001));
    assert_eq!(function_level_reset(0, 1), None);
    assert_eq!(reset_wait_ticks(Some(2_000_000_000)), 200_000_000);
}

#[test]
fn device_vectors_are_latched_by_bit() {
    assert_eq!(pending_bit(0x50), Some(1));
    assert_eq!(pending_bit(DEVICE_VECTOR_LAST), Some(1 << 63));
    assert_eq!(pending_bit(0x4f), None);
    let mut isr = [0u32; 8];
    isr[2] = 1 << 17;
    assert_eq!(active_device_vector(0xfee0_0800, &isr), Some(0x51));
    assert_eq!(active_device_vector(0xfee0_0800, &[0; 8]), None);
}

#[test]
fn quarantine_records_every_function_and_scans_each_bus_once() {
    let mut report = QuarantineReport::default();
    let display = FunctionRegisters {
        bus: 0,
        device: 2,
        function: 0,
        vendor: 0x8086,
        device_id: 1,
        class: 3,
        subclass: 0,
        secondary_bus: 0,
    };
    assert_eq!(report.record_function(&display), (None, true));
    report.record_stop(0x10, 4);
    assert_eq!(report.display_requester, Some(0x10));
    assert_eq!(report.active_requesters(), &[0x10]);
    assert_eq!(report.first_active_requester, Some(0x10));
    assert!(report.recorded_every_active_requester());
    assert_eq!(report.inventory().len(), 1);
    let bridge = FunctionRegisters { device: 3, class: 6, subclass: 4, secondary_bus: 5, ..display };
    assert_eq!(report.record_function(&bridge), (Some(5), false));
    assert_eq!(function_count(0x80), 8);
    assert_eq!(function_count(0), 1);
    let mut scan = BusScan::new();
    assert_eq!(scan.next_bus(), Some(0));
    scan.enqueue_bus(5);
    scan.enqueue_bus(5);
    scan.enqueue_bus(0);
    assert_eq!(scan.next_bus(), Some(5));
    assert_eq!(scan.next_bus(), None);
}
