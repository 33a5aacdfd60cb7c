use mboot::memory::{
    NestedPageResources, NestedPageTable, ENTRY_COUNT, EPT_DEVICE_READ_WRITE, EPT_LEAF_WRITE_BACK,
    EPT_READ_WRITE_EXECUTE, EPT_WALK_LENGTH_4, EPT_WRITE_BACK, NESTED_LARGE_PAGE,
    NPT_DEVICE_READ_WRITE, NPT_PRESENT_USER_NO_EXECUTE, NPT_PRESENT_WRITE_USER,
};
use mboot::physical::PhysicalMemory;
use mboot::{BackendKind, Error};

const ROOT: u64 = 0x10_0000;
const LEVEL3: u64 = 0x10_1000;
const LEVEL2: u64 = 0x10_2000;
const LEVEL1: u64 = 0x10_3000;
const DEVICE_LEVEL1: u64 = 0x10_5000;
const DEVICE_STATE: u64 = 0x10_6000;
const SHARED: u64 = 0x10_7000;
const GUEST: u64 = 0x20_0000;

fn resources(level1_pages: usize, guest_pages: usize) -> NestedPageResources {
    NestedPageResources {
        root: ROOT,
        level3: LEVEL3,
        level3_pages: 1,
        level2: LEVEL2,
        level2_pages: 1,
        level1: LEVEL1,
        level1_pages,
        device_level1: DEVICE_LEVEL1,
        device_level1_pages: 1,
        device_state: DEVICE_STATE,
        guest_base: GUEST,
        guest_pages,
    }
}

fn memory(guest_pages: usize, guest_word: u64) -> PhysicalMemory {
    let mut memory = PhysicalMemory::new();
    memory.add_window(ROOT, vec![0; 8 * ENTRY_COUNT]);
    memory.add_window(GUEST, vec![guest_word; guest_pages * ENTRY_COUNT]);
    memory
}

#[test]
fn ept_maps_only_configured_guest_pages() {
    let mut memory = memory(1, u64::MAX);
    let table =
        NestedPageTable::initialize(BackendKind::IntelVmx, resources(1, 1), &mut memory).unwrap();
    assert_eq!(memory.read(ROOT), LEVEL3 | EPT_READ_WRITE_EXECUTE);
    assert_eq!(memory.read(LEVEL1), GUEST | EPT_LEAF_WRITE_BACK);
    assert_eq!(memory.read(LEVEL1 + 8), 0);
    assert_eq!(memory.read(GUEST), 0);
    table.map_shared_page(0, SHARED, false, &mut memory).unwrap();
    assert_eq!(memory.read(LEVEL1), SHARED | (6 << 3) | 1);
    table.restore_owned_page(0, &mut memory).unwrap();
    assert_eq!(memory.read(LEVEL1), GUEST | EPT_LEAF_WRITE_BACK);
    table.map_device_page(0, SHARED, &mut memory).unwrap();
    assert_eq!(memory.read(LEVEL1), SHARED | EPT_DEVICE_READ_WRITE);
    assert_eq!(table.hardware_root() & 0xfff, EPT_WRITE_BACK | EPT_WALK_LENGTH_4);
}

#[test]
fn npt_uses_normal_page_table_permissions() {
    let mut memory = memory(1, 0);
    let table =
        NestedPageTable::initialize(BackendKind::AmdSvm, resources(1, 1), &mut memory).unwrap();
    assert_eq!(memory.read(ROOT), LEVEL3 | NPT_PRESENT_WRITE_USER);
    assert_eq!(table.hardware_root(), ROOT);
    table.map_shared_page(0, SHARED, true, &mut memory).unwrap();
    assert_eq!(memory.read(LEVEL1), SHARED | NPT_PRESENT_USER_NO_EXECUTE | (1 << 1));
    table.map_device_page(0, SHARED, &mut memory).unwrap();
    assert_eq!(memory.read(LEVEL1), SHARED | NPT_DEVICE_READ_WRITE);
}

#[test]
fn mappings_cross_a_two_megabyte_leaf_table_boundary() {
    let mut memory = memory(ENTRY_COUNT + 1, 0);
    let table = NestedPageTable::initialize(
        BackendKind::IntelVmx,
        resources(2, ENTRY_COUNT + 1),
        &mut memory,
    )
    .unwrap();
    table.map_device_page(2 * 1024 * 1024, 0x40_0000, &mut memory).unwrap();
    assert_eq!(memory.read(LEVEL1 + 8 * ENTRY_COUNT as u64), 0x40_0000 | EPT_DEVICE_READ_WRITE);
}

#[test]
fn sparse_gpu_ranges_use_large_and_small_device_leaves() {
    let mut memory = memory(1, 0);
    let table =
        NestedPageTable::initialize(BackendKind::IntelVmx, resources(1, 1), &mut memory).unwrap();

    table.map_device_range(0x20_0000, 0x40_0000, 0x20_1000, &mut memory).unwrap();
    assert_eq!(memory.read(LEVEL2 + 8), 0x40_0000 | EPT_DEVICE_READ_WRITE | NESTED_LARGE_PAGE);
    assert_ne!(memory.read(LEVEL2 + 16) & 0x000f_ffff_ffff_f000, 0);
    assert_eq!(memory.read(DEVICE_LEVEL1), 0x60_0000 | EPT_DEVICE_READ_WRITE);

    table.unmap_device_range(0x20_0000, 0x20_1000, &mut memory).unwrap();
    assert_eq!(memory.read(LEVEL2 + 8), 0);
    assert_eq!(memory.read(DEVICE_LEVEL1), 0);
}

#[test]
fn a_range_that_does_not_fit_leaves_the_tables_alone() {
    let mut memory = memory(1, 0);
    let table =
        NestedPageTable::initialize(BackendKind::IntelVmx, resources(1, 1), &mut memory).unwrap();
    table.map_device_range(0x40_0000, 0x40_0000, 0x1000, &mut memory).unwrap();
    let before: Vec<u64> =
        (0..8 * ENTRY_COUNT as u64).map(|word| memory.read(ROOT + 8 * word)).collect();
    assert!(table.map_device_range(0x20_0000, 0x80_0000, 0x40_0000, &mut memory).is_err());
    let after: Vec<u64> =
        (0..8 * ENTRY_COUNT as u64).map(|word| memory.read(ROOT + 8 * word)).collect();
    assert_eq!(before, after);
}

#[test]
fn unusable_resources_and_addresses_are_refused() {
    let mut memory = memory(1, 0);
    let mut unaligned = resources(1, 1);
    unaligned.level2 = LEVEL2 + 8;
    assert_eq!(unaligned.validate(), Err(Error::InvalidPage));
    let table =
        NestedPageTable::initialize(BackendKind::IntelVmx, resources(1, 1), &mut memory).unwrap();
    assert_eq!(table.root(), ROOT);
    assert_eq!(table.guest_base(), GUEST);
    assert_eq!(table.guest_memory_size(), 4096);
    assert_eq!(table.guest_host_address(0x10, 0x20), Some(GUEST + 0x10));
    assert_eq!(table.guest_host_address(0xfff, 2), None);
    assert_eq!(table.owned_page_host_address(0), Some(GUEST));
    assert_eq!(table.owned_page_host_address(8), None);
    assert_eq!(table.map_shared_page(0x1000, SHARED, true, &mut memory), Err(Error::InvalidPage));
}

#[test]
fn guest_tables_identity_map_its_memory() {
    let mut memory = memory(4, 7);
    let table =
        NestedPageTable::initialize(BackendKind::IntelVmx, resources(1, 4), &mut memory).unwrap();
    assert_eq!(table.initialize_guest_page_tables(&mut memory), Ok(0));
    assert_eq!(memory.read(GUEST), 0x1003);
    assert_eq!(memory.read(GUEST + 0x1000), 0x2003);
    assert_eq!(memory.read(GUEST + 0x2000), 0x83);
    table.map_guest_identity_device_range(0x20_0000, 0x1000, &mut memory).unwrap();
    assert_eq!(memory.read(GUEST + 0x2008), 0x20_0083);
    table.clear_guest_memory(&mut memory);
    assert_eq!(memory.read(GUEST + 0x2008), 0);
}

/// What four levels of tables lead to.
fn walk(memory: &PhysicalMemory, gpa: u64) -> Option<u64> {
    let mut table = ROOT;
    for shift in [39, 30, 21] {
        let entry = memory.read(table + 8 * (gpa >> shift & 511));
        if entry & 1 == 0 {
            return None;
        }
        if shift == 21 && entry & NESTED_LARGE_PAGE != 0 {
            return Some(entry);
        }
        table = entry & 0x000f_ffff_ffff_f000;
    }
    let entry = memory.read(table + 8 * (gpa >> 12 & 511));
    if entry & 1 == 0 {
        None
    } else {
        Some(entry)
    }
}

#[test]
fn the_hardware_finds_what_was_mapped() {
    let mut memory = memory(1, 0);
    let table =
        NestedPageTable::initialize(BackendKind::IntelVmx, resources(1, 1), &mut memory).unwrap();
    assert_eq!(walk(&memory, 0), Some(GUEST | EPT_LEAF_WRITE_BACK));
    assert_eq!(walk(&memory, 0x1000), None);
    table.map_device_range(0x2000_0000, 0x8020_0000, 0x20_1000, &mut memory).unwrap();
    assert_eq!(
        walk(&memory, 0x2000_0000),
        Some(0x8020_0000 | EPT_DEVICE_READ_WRITE | NESTED_LARGE_PAGE)
    );
    assert_eq!(walk(&memory, 0x2020_0000), Some(0x8040_0000 | EPT_DEVICE_READ_WRITE));
    assert_eq!(walk(&memory, 0x2020_1000), None);
    table.map_shared_page(0, SHARED, false, &mut memory).unwrap();
    assert_eq!(walk(&memory, 0), Some(SHARED | (6 << 3) | 1));
    table.unmap_device_range(0x2000_0000, 0x20_1000, &mut memory).unwrap();
    assert_eq!(walk(&memory, 0x2000_0000), None);
    assert_eq!(walk(&memory, 0x8000_0000_0000), None);
}
