use mboot::halt::Stage;
use mboot::image::{
    load_boot_module, ELF_CLASS_64, ELF_DATA_LITTLE_ENDIAN, ELF_HEADER_SIZE, ELF_MACHINE_X86_64,
    ELF_MAGIC, ELF_TYPE_EXECUTABLE, PROGRAM_HEADER_SIZE, PT_LOAD, PVH_START_INFO_GPA,
};
use mboot::iommu::{IommuKind, IommuTopology, IommuUnit, ReservedMapping};
use mboot::launch::{
    check_address_spaces, check_domain, check_iommu_kind, check_quarantine, check_system_domains,
    deferred_display, drops_device_policies, interrupt_controller, load_guest, pci_identity, prepare_guest_tables,
    reload_guest, reset_guest, storage_candidates, BootFailure, LoadedGuest, QuarantineVerdict,
};
use mboot::manifest::{
    ManifestDevice, ManifestDeviceKind, ManifestDomain, ManifestDomainRole, ManifestImageFormat,
    ManifestRestartPolicy, AUTO_REQUESTER, DEVICE_FLAG_REQUIRED, DOMAIN_FLAG_AUTO_START,
};
use mboot::memory::{NestedPageResources, NestedPageTable, ENTRY_COUNT};
use mboot::pci::quarantine::QuarantineReport;
use mboot::pci::PciFunction;
use mboot::physical::PhysicalMemory;
use mboot::{BackendKind, Error};

const TABLES: u64 = 0x100_0000;
const GUEST: u64 = 0x10_0000;
const PAGES: usize = 96;

fn memory(domains: u32) -> PhysicalMemory {
    let mut memory = PhysicalMemory::new();
    for id in 1..=domains as u64 {
        memory.add_window(id * TABLES, vec![0; 9 * ENTRY_COUNT]);
        memory.add_window(id * TABLES + GUEST, vec![0; PAGES * ENTRY_COUNT]);
    }
    memory
}

fn table(id: u32, memory: &mut PhysicalMemory) -> NestedPageTable {
    let base = id as u64 * TABLES;
    let resources = NestedPageResources {
        root: base,
        level3: base + 0x1000,
        level3_pages: 1,
        level2: base + 0x2000,
        level2_pages: 4,
        level1: base + 0x6000,
        level1_pages: 1,
        device_level1: base + 0x7000,
        device_level1_pages: 1,
        device_state: base + 0x8000,
        guest_base: base + GUEST,
        guest_pages: PAGES,
    };
    NestedPageTable::initialize(BackendKind::IntelVmx, resources, memory).unwrap()
}

fn config() -> ManifestDomain<'static> {
    ManifestDomain {
        id: 1,
        role: ManifestDomainRole::System,
        flags: DOMAIN_FLAG_AUTO_START,
        memory_size: 96 * 4096,
        vcpu_count: 1,
        restart_policy: ManifestRestartPolicy::Never,
        max_restarts: 0,
        image_format: ManifestImageFormat::NativeElf,
        capabilities: 0,
        image_sha256: [0; 32],
        image_path: "\\EFI\\mboot\\system.elf",
        initramfs_sha256: [0; 32],
        initramfs_path: None,
        command_line: "",
    }
}

#[test]
fn domains_need_a_supported_configuration() {
    assert_eq!(check_domain(&config()), Ok(96));
    let refused = Err(BootFailure::UnsupportedDomain);
    assert_eq!(check_domain(&ManifestDomain { flags: 0, ..config() }), refused);
    assert_eq!(check_domain(&ManifestDomain { vcpu_count: 2, ..config() }), refused);
    assert_eq!(check_domain(&ManifestDomain { memory_size: 95 * 4096, ..config() }), refused);
}

#[test]
fn there_is_one_system_domain() {
    use_roles(&[ManifestDomainRole::System, ManifestDomainRole::Application], Ok(()));
    use_roles(&[ManifestDomainRole::Hardware], Err(BootFailure::SystemDomains));
    use_roles(
        &[ManifestDomainRole::System, ManifestDomainRole::System],
        Err(BootFailure::SystemDomains),
    );
}

fn use_roles(roles: &[ManifestDomainRole], expected: Result<(), BootFailure>) {
    assert_eq!(check_system_domains(&roles.to_vec()), expected);
}

#[test]
fn boot_failures_have_codes() {
    assert_eq!(BootFailure::NoVirtualization.code(), 1);
    assert_eq!(BootFailure::SystemDomains.code(), 9);
    assert_eq!(BootFailure::HostPage.code(), 11);
    assert_eq!(BootFailure::IommuTables.code(), 18);
    assert_eq!(BootFailure::NetworkBundle.code(), 60);
    assert_eq!(BootFailure::Entropy.code(), 61);
}

#[test]
fn the_processor_decides_the_remapping_units() {
    assert_eq!(check_iommu_kind(IommuKind::IntelVtd, BackendKind::IntelVmx), Ok(()));
    assert_eq!(
        check_iommu_kind(IommuKind::AmdVi, BackendKind::IntelVmx),
        Err(BootFailure::IommuMismatch)
    );
    assert_eq!(check_address_spaces(BackendKind::IntelVmx, 8, 0), Ok(()));
    assert_eq!(check_address_spaces(BackendKind::AmdSvm, 7, 8), Ok(()));
    assert_eq!(
        check_address_spaces(BackendKind::AmdSvm, 8, 8),
        Err(BootFailure::AddressSpaces)
    );
}

fn policy(requester: u16, kind: ManifestDeviceKind, flags: u16) -> ManifestDevice {
    ManifestDevice {
        segment: 0,
        requester,
        kind,
        flags,
        domain_id: 2,
        storage_disk_guid: [0; 16],
        storage_partition_type_guid: [0; 16],
        storage_partition_guid: [0; 16],
    }
}

#[test]
fn only_the_display_can_fall_back_to_the_framebuffer() {
    let display = policy(AUTO_REQUESTER, ManifestDeviceKind::Display, DEVICE_FLAG_REQUIRED);
    let usb = policy(AUTO_REQUESTER, ManifestDeviceKind::Usb, 0);
    let required = policy(AUTO_REQUESTER, ManifestDeviceKind::Usb, DEVICE_FLAG_REQUIRED);
    let named = policy(0x10, ManifestDeviceKind::Usb, 0);
    assert_eq!(drops_device_policies(&vec![], false, false), Ok(false));
    assert_eq!(drops_device_policies(&vec![required], true, false), Ok(false));
    assert_eq!(drops_device_policies(&vec![display, usb], false, true), Ok(true));
    let refused = Err(BootFailure::IommuMissing);
    assert_eq!(drops_device_policies(&vec![display, usb], false, false), refused);
    assert_eq!(drops_device_policies(&vec![display, required], false, true), refused);
    assert_eq!(drops_device_policies(&vec![named], false, true), refused);
}

fn report(active: &[u16], display: Option<u16>) -> QuarantineReport {
    QuarantineReport {
        functions: 4,
        bus_masters_disabled: 0,
        bus_masters_active: active.len() as u32,
        first_active_requester: active.first().copied(),
        display_requester: display,
        active_requesters: active.to_vec(),
        inventory: vec![],
    }
}

fn topology() -> IommuTopology {
    let mut topology = IommuTopology::new(IommuKind::IntelVtd);
    topology
        .push(IommuUnit {
            segment: 0,
            register_base: 0xfed9_0000,
            include_all: true,
            scope_requesters: vec![],
        })
        .unwrap();
    topology
        .push_reserved_mapping(ReservedMapping {
            segment: 0,
            requester: 0x10,
            base: 0x8000_0000,
            limit: 0x8000_ffff,
        })
        .unwrap();
    topology
}

#[test]
fn active_devices_need_reserved_ranges() {
    let topology = topology();
    assert_eq!(check_quarantine(&report(&[], None), None), QuarantineVerdict::Quiet);
    assert_eq!(
        check_quarantine(&report(&[0x10], None), Some(&topology)),
        QuarantineVerdict::Reserved
    );
    assert_eq!(
        check_quarantine(&report(&[0x10], None), None),
        QuarantineVerdict::Refused { first: Some(0x10) }
    );
    assert_eq!(
        check_quarantine(&report(&[0x10, 0x18], None), Some(&topology)),
        QuarantineVerdict::Refused { first: Some(0x10) }
    );
    let mut truncated = report(&[0x10], None);
    truncated.bus_masters_active = 2;
    assert_eq!(
        check_quarantine(&truncated, Some(&topology)),
        QuarantineVerdict::Refused { first: Some(0x10) }
    );
}

#[test]
fn a_quiet_display_is_handed_over_later() {
    let topology = topology();
    assert_eq!(deferred_display(&report(&[], Some(0x10)), Some(&topology)), Some(0x10));
    assert_eq!(deferred_display(&report(&[0x10], Some(0x10)), Some(&topology)), None);
    assert_eq!(deferred_display(&report(&[], Some(0x10)), None), None);
    assert_eq!(deferred_display(&report(&[], None), Some(&topology)), None);
}

#[test]
fn the_first_two_storage_controllers_are_shown() {
    let function = |requester: u16, class: u8| PciFunction {
        requester,
        vendor: 0x8086,
        device: 0xa0d3,
        class,
        subclass: 8,
    };
    let all = [function(8, 3), function(16, 1), function(24, 2), function(32, 1), function(40, 1)];
    assert_eq!(
        storage_candidates(&all),
        (Some((16, 0x8086, 0xa0d3, 8)), Some((32, 0x8086, 0xa0d3, 8)))
    );
    assert_eq!(storage_candidates(&all[..2]), (Some(pci_identity(all[1])), None));
    assert_eq!(storage_candidates(&all[..1]), (None, None));
}

fn put(bytes: &mut [u8], offset: usize, value: &[u8]) {
    bytes[offset..offset + value.len()].copy_from_slice(value);
}

fn native_kernel() -> Vec<u8> {
    let mut kernel = vec![0u8; 0x204];
    put(&mut kernel, 0, &ELF_MAGIC);
    kernel[4] = ELF_CLASS_64;
    kernel[5] = ELF_DATA_LITTLE_ENDIAN;
    kernel[6] = 1;
    put(&mut kernel, 16, &ELF_TYPE_EXECUTABLE.to_le_bytes());
    put(&mut kernel, 18, &ELF_MACHINE_X86_64.to_le_bytes());
    put(&mut kernel, 20, &1u32.to_le_bytes());
    put(&mut kernel, 24, &0x1_0000u64.to_le_bytes());
    put(&mut kernel, 32, &(ELF_HEADER_SIZE as u64).to_le_bytes());
    put(&mut kernel, 52, &(ELF_HEADER_SIZE as u16).to_le_bytes());
    put(&mut kernel, 54, &(PROGRAM_HEADER_SIZE as u16).to_le_bytes());
    put(&mut kernel, 56, &1u16.to_le_bytes());
    put(&mut kernel, ELF_HEADER_SIZE, &PT_LOAD.to_le_bytes());
    put(&mut kernel, ELF_HEADER_SIZE + 4, &5u32.to_le_bytes());
    for (index, value) in [0x200u64, 0x1_0000, 0x1_0000, 4, 8, 0x1000].iter().enumerate() {
        put(&mut kernel, ELF_HEADER_SIZE + 8 + 8 * index, &value.to_le_bytes());
    }
    put(&mut kernel, 0x200, b"CODE");
    kernel
}

#[test]
fn a_native_guest_gets_its_module_behind_the_kernel() {
    let mut ram = vec![0u8; 0x20_0000];
    let loaded = load_guest(
        ManifestImageFormat::NativeElf,
        &native_kernel(),
        Some(b"module"),
        "",
        &mut ram,
    );
    assert_eq!(
        loaded,
        Ok(LoadedGuest {
            entry: 0x1_0000,
            loader_info: 0,
            module_start: 0x1_1000,
            module_size: 6,
        })
    );
    assert_eq!(&ram[0x1_0000..0x1_0004], b"CODE");
    assert_eq!(&ram[0x1_1000..0x1_1006], b"module");
}

#[test]
fn guests_that_do_not_fit_are_refused() {
    let mut ram = vec![0u8; 0x16_0000];
    let module = vec![1u8; 0x10_0000];
    assert_eq!(
        load_guest(
            ManifestImageFormat::NativeElf,
            &native_kernel(),
            Some(&module),
            "",
            &mut ram,
        ),
        Err((Stage::DomainBootModule, Error::ImageTooLarge))
    );
    assert_eq!(
        load_guest(ManifestImageFormat::LinuxPvh, &native_kernel(), None, "", &mut ram),
        Err((Stage::DomainImage, Error::InvalidImage))
    );
    assert_eq!(
        load_guest(ManifestImageFormat::NativeElf, b"no kernel", None, "", &mut ram),
        Err((Stage::DomainImage, Error::InvalidImage))
    );
    assert_eq!(PVH_START_INFO_GPA % 8, 0);
}

#[test]
fn boot_modules_start_on_a_page() {
    let mut ram = vec![0u8; 0x4000];
    assert_eq!(load_boot_module(b"abc", 0x1001, 0x4000, &mut ram), Ok((0x2000, 3)));
    assert_eq!(&ram[0x2000..0x2003], b"abc");
    assert_eq!(load_boot_module(b"abc", 0x2000, 0x2003, &mut ram), Ok((0x2000, 3)));
    assert_eq!(
        load_boot_module(b"abc", 0x2000, 0x2002, &mut ram),
        Err(Error::ImageTooLarge)
    );
    assert_eq!(
        load_boot_module(b"", u64::MAX, 0x4000, &mut ram),
        Err(Error::ImageTooLarge)
    );
}

#[test]
fn only_native_guests_get_page_tables() {
    let mut memory = memory(1);
    let table = table(1, &mut memory);
    assert_eq!(
        prepare_guest_tables(ManifestImageFormat::LinuxPvh, &table, &mut memory),
        Ok(0)
    );
    assert_eq!(memory.read(TABLES + GUEST), 0);
    assert_eq!(
        prepare_guest_tables(ManifestImageFormat::NativeElf, &table, &mut memory),
        Ok(0)
    );
    assert_eq!(memory.read(TABLES + GUEST), 0x1003);
}

#[test]
fn a_restarted_domain_finds_its_memory_empty() {
    let mut memory = memory(1);
    let table = table(1, &mut memory);
    let base = TABLES + GUEST;
    let last = base + PAGES as u64 * 0x1000 - 8;
    memory.write(base, 7);
    memory.write(base + 0x5000, 8);
    memory.write(last, 9);
    assert_eq!(
        reset_guest(ManifestImageFormat::NativeElf, &table, &mut memory),
        Ok(0)
    );
    assert_eq!(memory.read(base), 0x1003);
    assert_eq!(memory.read(base + 0x1000), 0x2003);
    assert_eq!(memory.read(base + 0x5000), 0);
    assert_eq!(memory.read(last), 0);
    assert_eq!(
        reset_guest(ManifestImageFormat::LinuxPvh, &table, &mut memory),
        Ok(0)
    );
    assert_eq!(memory.read(base), 0);
}

#[test]
fn failures_of_a_restart_are_named_as_such() {
    let mut ram = vec![0u8; 0x16_0000];
    let module = vec![1u8; 0x10_0000];
    assert_eq!(
        reload_guest(
            ManifestImageFormat::NativeElf,
            &native_kernel(),
            Some(&module),
            "",
            &mut ram,
        ),
        Err((Stage::DomainBootModuleRestart, Error::ImageTooLarge))
    );
    assert_eq!(
        reload_guest(ManifestImageFormat::NativeElf, b"no kernel", None, "", &mut ram),
        Err((Stage::DomainImageRestart, Error::InvalidImage))
    );
    let again = reload_guest(ManifestImageFormat::NativeElf, &native_kernel(), None, "", &mut ram);
    assert_eq!(again.map(|guest| guest.entry), Ok(0x1_0000));
}

#[test]
fn only_linux_sees_the_interrupt_registers() {
    let linux = interrupt_controller(ManifestImageFormat::LinuxPvh);
    assert_eq!(linux.read_msr(0x80f), Ok(0xff));
    assert_eq!(linux.next_pending(), None);
    assert!(interrupt_controller(ManifestImageFormat::NativeElf).read_msr(0x80f).is_err());
}
