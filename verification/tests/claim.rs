use mboot::boot_memory::{BootMemoryMap, MemoryRegion};
use mboot::claim::{transition_label, ClaimFailure, ClaimStep, ReleaseStep};
use mboot::device::DeviceTable;
use mboot::halt::Stage;
use mboot::iommu::registers::IntelTransitionStage;
use mboot::manifest::{ManifestDevice, ManifestDeviceKind};
use mboot::memory::{NestedPageResources, NestedPageTable, ENTRY_COUNT, EPT_DEVICE_READ_WRITE};
use mboot::pci::{AssignmentTable, PciBar, PciDescriptor, PciError, PciFunction};
use mboot::physical::PhysicalMemory;
use mboot::BackendKind;

const TABLES: u64 = 0x100_0000;
const GUEST: u64 = 0x10_0000;
const PAGES: usize = 96;

fn memory(domains: u32) -> PhysicalMemory {
    let mut memory = PhysicalMemory::new();
    for id in 1..=domains as u64 {
        memory.add_window(id * TABLES, vec![0; 9 * ENTRY_COUNT]);
        memory.add_window(id * TABLES + GUEST, vec![0; PAGES * ENTRY_COUNT]);
    }
    memory
}

fn table(id: u32, memory: &mut PhysicalMemory) -> NestedPageTable {
    let base = id as u64 * TABLES;
    let resources = NestedPageResources {
        root: base,
        level3: base + 0x1000,
        level3_pages: 1,
        level2: base + 0x2000,
        level2_pages: 4,
        level1: base + 0x6000,
        level1_pages: 1,
        device_level1: base + 0x7000,
        device_level1_pages: 1,
        device_state: base + 0x8000,
        guest_base: base + GUEST,
        guest_pages: PAGES,
    };
    NestedPageTable::initialize(BackendKind::IntelVmx, resources, memory).unwrap()
}

const REQUESTER: u16 = 0x10;
const REGISTERS: u64 = 0x8000_0000;

struct Machine {
    memory: PhysicalMemory,
    table: NestedPageTable,
    devices: DeviceTable,
    assignments: AssignmentTable,
    map: BootMemoryMap,
}

fn machine() -> Machine {
    let mut memory = memory(2);
    let table = table(2, &mut memory);
    let functions =
        [PciFunction { requester: REQUESTER, class: 0x0c, subclass: 3, ..PciFunction::default() }];
    let policy = ManifestDevice {
        segment: 0,
        requester: REQUESTER,
        kind: ManifestDeviceKind::Usb,
        flags: 0,
        domain_id: 2,
        storage_disk_guid: [0; 16],
        storage_partition_type_guid: [0; 16],
        storage_partition_guid: [0; 16],
    };
    let mut map = BootMemoryMap::new();
    map.push(MemoryRegion::of_pages(0x10_0000, 256, true, false));
    Machine {
        memory,
        table,
        devices: DeviceTable::from_pci(&functions, None, &[policy]).unwrap(),
        assignments: AssignmentTable::new(),
        map,
    }
}

fn descriptor(bars: &[(u64, u64)]) -> PciDescriptor {
    let mut descriptor = PciDescriptor { requester: REQUESTER, ..PciDescriptor::default() };
    for (index, (physical_address, length)) in bars.iter().copied().enumerate() {
        descriptor.bars[index] =
            PciBar { index: index as u8, physical_address, length, guest_address: 0 };
    }
    descriptor.bar_count = bars.len();
    descriptor
}

impl Machine {
    fn probed(&mut self, probe: Result<PciDescriptor, PciError>) -> ClaimStep {
        ClaimStep::probed(
            probe,
            &self.map,
            &mut self.assignments,
            &self.table,
            &mut self.memory,
            2,
        )
    }

    fn leaf(&self) -> u64 {
        self.memory.read(2 * TABLES + 0x7000)
    }
}

#[test]
fn a_function_is_claimed_step_by_step() {
    let mut m = machine();
    assert_eq!(ClaimStep::claim_pci_device(&m.devices, 2, REQUESTER), ClaimStep::Probe);
    assert_eq!(m.probed(Ok(descriptor(&[(REGISTERS, 0x2000)]))), ClaimStep::Flush);
    assert_eq!(m.leaf(), REGISTERS | EPT_DEVICE_READ_WRITE);
    assert_eq!(
        ClaimStep::flushed(true, true, &m.devices, &m.assignments, 2, REQUESTER),
        ClaimStep::Assign
    );
    assert_eq!(
        ClaimStep::assigned(true, &mut m.devices, &m.assignments, 2, REQUESTER),
        ClaimStep::Claimed
    );
    assert_eq!(m.devices.query(2, 0).unwrap().owner_domain, 2);
    assert_eq!(
        ReleaseStep::release_pci_device(&m.devices, 3, REQUESTER),
        ReleaseStep::Refused
    );
    assert_eq!(
        ReleaseStep::release_pci_device(&m.devices, 2, REQUESTER),
        ReleaseStep::Silence
    );
    assert_eq!(
        ReleaseStep::silenced(true, true, &mut m.assignments, 2, REQUESTER),
        ReleaseStep::Detach
    );
    assert_eq!(
        ReleaseStep::detached(true, &m.assignments, &m.table, &mut m.memory, 2, REQUESTER),
        ReleaseStep::Flush
    );
    assert_eq!(m.leaf(), 0);
    assert_eq!(
        ReleaseStep::flushed(true, &mut m.assignments, &mut m.devices, 2, REQUESTER),
        ReleaseStep::Released
    );
    assert_eq!(m.devices.query(2, 0).unwrap().owner_domain, 0);
}

#[test]
fn refused_claims_change_nothing() {
    let mut m = machine();
    assert_eq!(
        ClaimStep::claim_pci_device(&m.devices, 3, REQUESTER),
        ClaimStep::Refused(ClaimFailure::Policy)
    );
    assert_eq!(
        m.probed(Err(PciError::UnsupportedBar)),
        ClaimStep::Refused(ClaimFailure::Probe(PciError::UnsupportedBar))
    );
    assert_eq!(
        m.probed(Ok(descriptor(&[(0x10_0000, 0x1000)]))),
        ClaimStep::Refused(ClaimFailure::Mmio)
    );
    assert_eq!(
        m.probed(Ok(descriptor(&[(0x800_0000, 0x1000)]))),
        ClaimStep::Refused(ClaimFailure::Window)
    );
    assert_eq!(m.leaf(), 0);
    assert!(m.assignments.config_read(2, REQUESTER, 0).is_err());
}

#[test]
fn a_failed_claim_is_rolled_back() {
    let mut m = machine();
    assert_eq!(m.probed(Ok(descriptor(&[(REGISTERS, 0x1000)]))), ClaimStep::Flush);
    let silence = ClaimStep::Silence { mapped: 1, failure: ClaimFailure::Iommu };
    assert_eq!(
        ClaimStep::flushed(true, false, &m.devices, &m.assignments, 2, REQUESTER),
        silence
    );
    assert_eq!(
        ClaimStep::flushed(false, true, &m.devices, &m.assignments, 2, REQUESTER),
        ClaimStep::Silence { mapped: 1, failure: ClaimFailure::NestedFlush }
    );
    let step = ClaimStep::rollback_pci_mapping(
        true,
        1,
        ClaimFailure::Iommu,
        &mut m.assignments,
        &m.table,
        &mut m.memory,
        2,
        REQUESTER,
    );
    assert_eq!(step, ClaimStep::FlushRollback { silent: true, failure: ClaimFailure::Iommu });
    assert_eq!(m.leaf(), 0);
    assert_eq!(
        ClaimStep::rolled_back(true, true, ClaimFailure::Iommu, &mut m.assignments, 2, REQUESTER),
        ClaimStep::Refused(ClaimFailure::Iommu)
    );
    assert!(m.assignments.config_read(2, REQUESTER, 0).is_err());
    assert_eq!(
        ClaimStep::rolled_back(true, true, ClaimFailure::Iommu, &mut m.assignments, 2, REQUESTER),
        ClaimStep::Halted(Stage::PciMappingRollback)
    );
}

#[test]
fn a_bar_without_room_is_silenced() {
    let mut m = machine();
    let step = m.probed(Ok(descriptor(&[(REGISTERS, 0x1000), (0xa000_0000, 0x1000)])));
    assert_eq!(step, ClaimStep::Silence { mapped: 1, failure: ClaimFailure::NestedTable });
    assert_eq!(m.leaf(), REGISTERS | EPT_DEVICE_READ_WRITE);
}

#[test]
fn later_failures_name_their_step() {
    let mut m = machine();
    m.probed(Ok(descriptor(&[(REGISTERS, 0x1000)])));
    assert_eq!(
        ClaimStep::taken_over(true, &m.assignments, 2, REQUESTER),
        ClaimStep::Assign
    );
    assert_eq!(
        ClaimStep::taken_over(false, &m.assignments, 2, REQUESTER),
        ClaimStep::Silence { mapped: 1, failure: ClaimFailure::IommuHandoff }
    );
    assert_eq!(
        ClaimStep::assigned(false, &mut m.devices, &m.assignments, 2, REQUESTER),
        ClaimStep::Silence { mapped: 1, failure: ClaimFailure::DmaMap }
    );
    assert_eq!(
        ClaimStep::assigned(true, &mut m.devices, &m.assignments, 3, REQUESTER),
        ClaimStep::Detach
    );
    assert_eq!(
        ClaimStep::detached(true, &m.assignments, 2, REQUESTER),
        ClaimStep::Silence { mapped: 1, failure: ClaimFailure::State }
    );
    assert_eq!(
        ClaimStep::detached(false, &m.assignments, 2, REQUESTER),
        ClaimStep::Halted(Stage::PciDmaRollback)
    );
    assert_eq!(
        ReleaseStep::silenced(false, true, &mut m.assignments, 2, REQUESTER),
        ReleaseStep::Refused
    );
    assert_eq!(
        ReleaseStep::flushed(false, &mut m.assignments, &mut m.devices, 2, REQUESTER),
        ReleaseStep::Halted(Stage::PciMappingRestore)
    );
    assert_eq!(
        ReleaseStep::flushed(true, &mut m.assignments, &mut m.devices, 2, REQUESTER),
        ReleaseStep::Halted(Stage::PciReleaseState)
    );
}

#[test]
fn failures_have_labels() {
    assert_eq!(ClaimFailure::Policy.label(), "POLICY ERROR");
    assert_eq!(ClaimFailure::Probe(PciError::InvalidBar).label(), "BAR VALUE ERROR");
    assert_eq!(ClaimFailure::NestedFlush.label(), "EPT FLUSH ERROR");
    assert_eq!(transition_label(IntelTransitionStage::Iotlb), "IOMMU IOTLB");
}

#[test]
fn only_the_functions_own_ranges_leave_with_it() {
    let mut m = machine();
    let other = REGISTERS + 0x10_0000;
    m.table.map_device_range(other, other, 0x1000, &mut m.memory).unwrap();
    let kept = m.memory.read(2 * TABLES + 0x7000 + 8 * 0x100);
    assert_eq!(kept, other | EPT_DEVICE_READ_WRITE);
    assert_eq!(m.probed(Ok(descriptor(&[(REGISTERS, 0x2000)]))), ClaimStep::Flush);
    let (held, _) = m.assignments.plan_deactivation(2, REQUESTER).unwrap();
    assert_eq!(held.bars[0].guest_address, REGISTERS);
    assert_eq!(held.bars[1..], [PciBar::default(); 5]);
    ReleaseStep::silenced(true, true, &mut m.assignments, 2, REQUESTER);
    assert_eq!(
        ReleaseStep::detached(true, &m.assignments, &m.table, &mut m.memory, 2, REQUESTER),
        ReleaseStep::Flush
    );
    assert_eq!(m.leaf(), 0);
    assert_eq!(m.memory.read(2 * TABLES + 0x7000 + 8 * 0x100), kept);
}

#[test]
fn a_function_is_forgotten_even_where_its_ranges_cannot_be_removed() {
    let mut m = machine();
    assert_eq!(m.probed(Ok(descriptor(&[(REGISTERS, 0x1000)]))), ClaimStep::Flush);
    m.table.unmap_device_range(REGISTERS, 0x1000, &mut m.memory).unwrap();
    let step = ClaimStep::rollback_pci_mapping(
        true,
        1,
        ClaimFailure::Iommu,
        &mut m.assignments,
        &m.table,
        &mut m.memory,
        2,
        REQUESTER,
    );
    assert_eq!(step, ClaimStep::Halted(Stage::PciMappingRollback));
    assert!(m.assignments.plan_deactivation(2, REQUESTER).is_err());
}
