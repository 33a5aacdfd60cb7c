use mboot::iommu::acpi::{checksum_is_zero, parse_dmar, parse_ivrs, Discovery};
use mboot::iommu::registers::{
    amd_invalidation_commands, check_intel_unit, enable_amd_deny_all, enable_amd_protection,
    enable_intel_protection, next_completion, queue_amd_command, replace_intel_protection,
    take_over_intel_unit, IntelTransitionStage, RegisterOp,
    AMD_DEVICE_TABLE_SIZE, INTEL_TRANSLATION_ENABLE,
};
use mboot::iommu::remapper::{
    check_domain_id, enable_deny_all, AssignOutcome, AssignPhase, DmaRemapper,
};
use mboot::iommu::tables::{
    amd_dte, attach_amd_requester, attach_intel_requester, build_intel_tables,
    detach_amd_requester, detach_intel_requester, map_domain_memory, map_domain_reserved_identity,
    TableArena, AMD_DTE_READ_WRITE, AMD_DTE_TRANSLATION_VALID, AMD_DTE_VALID, AMD_PTE_PRESENT,
    AMD_PTE_READ_WRITE,
};
use mboot::iommu::{
    deny_all_table_pages, validate_resources, Error, IommuKind, IommuResources, IommuTopology,
    IommuUnit, ReservedMapping, DOMAIN_TABLE_PAGES, INTEL_TABLE_PAGES, MAX_IOMMU_UNITS,
};
use mboot::physical::PhysicalMemory;

const AMD_COMMAND_COMPLETION_WAIT: u32 = 1;
const AMD_COMMAND_INVALIDATE_DTE: u32 = 2;
const AMD_COMMAND_INVALIDATE_PAGES: u32 = 3;
const AMD_INVALIDATE_ALL_PAGES: u64 = 0x7fff_ffff_ffff_f003;

fn finish_table(table: &mut [u8], signature: &[u8; 4]) {
    table[..4].copy_from_slice(signature);
    let length = table.len() as u32;
    table[4..8].copy_from_slice(&length.to_le_bytes());
    table[9] = 0;
    table[9] = 0_u8.wrapping_sub(table.iter().fold(0_u8, |sum, byte| sum.wrapping_add(*byte)));
}

#[test]
fn parses_intel_dmar_units() {
    let mut table = [0_u8; 64];
    table[48..50].copy_from_slice(&0_u16.to_le_bytes());
    table[50..52].copy_from_slice(&16_u16.to_le_bytes());
    table[52] = 1;
    table[54..56].copy_from_slice(&2_u16.to_le_bytes());
    table[56..64].copy_from_slice(&0xfed9_0000_u64.to_le_bytes());
    finish_table(&mut table, b"DMAR");
    let topology = parse_dmar(&table).unwrap();
    assert_eq!(topology.kind(), IommuKind::IntelVtd);
    assert_eq!(topology.units()[0].segment, 2);
    assert!(topology.units()[0].include_all);
    assert!(topology.covers_requester(2, 0x00f8));
    assert!(!topology.covers_requester(0, 0x00f8));
}

#[test]
fn parses_a_direct_requester_scope_for_an_intel_unit() {
    let mut table = [0_u8; 72];
    table[48..50].copy_from_slice(&0_u16.to_le_bytes());
    table[50..52].copy_from_slice(&24_u16.to_le_bytes());
    table[56..64].copy_from_slice(&0xfed9_0000_u64.to_le_bytes());
    table[64] = 1;
    table[65] = 8;
    table[69] = 0;
    table[70] = 2;
    table[71] = 0;
    finish_table(&mut table, b"DMAR");
    let topology = parse_dmar(&table).unwrap();
    assert!(topology.units()[0].covers_requester(0x0010));
    assert!(!topology.units()[0].covers_requester(0x0018));
}

#[test]
fn explicit_intel_scope_precedes_the_include_all_unit() {
    let mut topology = IommuTopology::new(IommuKind::IntelVtd);
    topology
        .push(IommuUnit {
            segment: 0,
            register_base: 0xfed9_0000,
            include_all: true,
            scope_requesters: vec![],
        })
        .unwrap();
    topology
        .push(IommuUnit {
            segment: 0,
            register_base: 0xfed9_1000,
            include_all: false,
            scope_requesters: vec![0x0010],
        })
        .unwrap();
    assert!(!topology.unit_handles_requester(0, 0, 0x0010));
    assert!(topology.unit_handles_requester(1, 0, 0x0010));
    assert!(topology.unit_handles_requester(0, 0, 0x0018));
    assert!(topology.covers_requester(0, 0x0018));
}

#[test]
fn parses_intel_rmrr_for_a_direct_pci_endpoint() {
    let mut table = [0_u8; 96];
    table[48..50].copy_from_slice(&0_u16.to_le_bytes());
    table[50..52].copy_from_slice(&16_u16.to_le_bytes());
    table[52] = 1;
    table[56..64].copy_from_slice(&0xfed9_0000_u64.to_le_bytes());
    table[64..66].copy_from_slice(&1_u16.to_le_bytes());
    table[66..68].copy_from_slice(&32_u16.to_le_bytes());
    table[72..80].copy_from_slice(&0x7a00_0000_u64.to_le_bytes());
    table[80..88].copy_from_slice(&0x7bff_ffff_u64.to_le_bytes());
    table[88] = 1;
    table[89] = 8;
    table[93] = 0;
    table[94] = 2;
    table[95] = 0;
    finish_table(&mut table, b"DMAR");
    let topology = parse_dmar(&table).unwrap();
    assert_eq!(
        topology.reserved_mappings(),
        &[ReservedMapping {
            segment: 0,
            requester: 0x0010,
            base: 0x7a00_0000,
            limit: 0x7bff_ffff,
        }]
    );
}

#[test]
fn parses_amd_ivrs_units() {
    let mut table = [0_u8; 72];
    table[48..50].copy_from_slice(&0x10_u16.to_le_bytes());
    table[50..52].copy_from_slice(&24_u16.to_le_bytes());
    table[56..64].copy_from_slice(&0xfeb8_0000_u64.to_le_bytes());
    table[64..66].copy_from_slice(&1_u16.to_le_bytes());
    finish_table(&mut table, b"IVRS");
    let topology = parse_ivrs(&table).unwrap();
    assert_eq!(topology.kind(), IommuKind::AmdVi);
    assert_eq!(topology.units()[0].segment, 1);
}

#[test]
fn rejects_a_bad_checksum() {
    let mut table = [0_u8; 64];
    finish_table(&mut table, b"DMAR");
    table[20] = 1;
    assert_eq!(parse_dmar(&table), Err(Error::InvalidTable));
}

#[test]
fn rejects_zero_length_remapping_structures() {
    let mut table = [0_u8; 52];
    finish_table(&mut table, b"DMAR");
    assert_eq!(parse_dmar(&table), Err(Error::InvalidTable));
}

#[test]
fn deny_all_tables_cover_each_architectures_requester_space() {
    assert_eq!(deny_all_table_pages(IommuKind::IntelVtd), INTEL_TABLE_PAGES);
    assert_eq!(deny_all_table_pages(IommuKind::AmdVi), 512);
    assert_eq!(AMD_DEVICE_TABLE_SIZE, 0x1ff);
    assert_eq!(
        IommuResources::required_pages(IommuKind::IntelVtd),
        (INTEL_TABLE_PAGES, 0, 0, 0)
    );
    assert_eq!(
        IommuResources::required_pages(IommuKind::AmdVi),
        (512, DOMAIN_TABLE_PAGES, 2, 1)
    );
}

const TABLES: u64 = 0x100_0000;

fn table_memory(pages: usize) -> PhysicalMemory {
    let mut memory = PhysicalMemory::new();
    memory.add_window(TABLES, vec![0; pages * 512]);
    memory
}

#[test]
fn intel_tables_map_only_the_reserved_requester_range() {
    let mut memory = table_memory(INTEL_TABLE_PAGES);
    let mapping = ReservedMapping {
        segment: 0,
        requester: 0x0010,
        base: 0x2000_0000,
        limit: 0x203f_ffff,
    };
    build_intel_tables(&mut memory, TABLES, &[mapping]).unwrap();
    let root = memory.read(TABLES);
    assert_ne!(root & 1, 0);
    let context = root & !0xfff;
    let display_context = memory.read(context + 0x10 * 16);
    let unrelated_context = memory.read(context + 0x18 * 16);
    assert_ne!(display_context & 1, 0);
    assert_eq!(unrelated_context, 0);
}

#[test]
fn intel_domain_tables_translate_iova_to_domain_ram() {
    let mut memory = table_memory(DOMAIN_TABLE_PAGES);
    let mut arena = TableArena { base: TABLES, next_page: 0, page_count: DOMAIN_TABLE_PAGES };
    let root = arena.allocate(&mut memory).unwrap();
    map_domain_memory(IommuKind::IntelVtd, &mut memory, root, 0x2000_0000, 8192, &mut arena)
        .unwrap();
    let level3 = memory.read(root) & 0x000f_ffff_ffff_f000;
    let level2 = memory.read(level3) & 0x000f_ffff_ffff_f000;
    let level1 = memory.read(level2) & 0x000f_ffff_ffff_f000;
    assert_eq!(memory.read(level1), 0x2000_0003);
    assert_eq!(memory.read(level1 + 8), 0x2000_1003);
}

#[test]
fn intel_domain_tables_keep_the_assigned_requesters_reserved_dma_range() {
    let mut memory = table_memory(INTEL_TABLE_PAGES);
    let mut arena = TableArena { base: TABLES, next_page: 1, page_count: INTEL_TABLE_PAGES };
    let root = TABLES;
    map_domain_reserved_identity(&mut memory, &mut arena, root, 0x2000_0000, 0x201f_ffff).unwrap();

    let level3 = memory.read(root) & 0x000f_ffff_ffff_f000;
    let level2 = memory.read(level3) & 0x000f_ffff_ffff_f000;
    let entry = memory.read(level2 + 0x100 * 8);
    assert_eq!(entry, 0x2000_0083);
}

#[test]
fn amd_domain_tables_encode_levels_and_permissions() {
    let mut memory = table_memory(DOMAIN_TABLE_PAGES);
    let mut arena = TableArena { base: TABLES, next_page: 0, page_count: DOMAIN_TABLE_PAGES };
    let root = arena.allocate(&mut memory).unwrap();
    map_domain_memory(IommuKind::AmdVi, &mut memory, root, 0x3000_0000, 8192, &mut arena).unwrap();
    let root_entry = memory.read(root);
    assert_eq!(root_entry >> 9 & 7, 3);
    let level3 = root_entry & 0x000f_ffff_ffff_f000;
    let level3_entry = memory.read(level3);
    assert_eq!(level3_entry >> 9 & 7, 2);
    let level2 = level3_entry & 0x000f_ffff_ffff_f000;
    let level2_entry = memory.read(level2);
    assert_eq!(level2_entry >> 9 & 7, 1);
    let level1 = level2_entry & 0x000f_ffff_ffff_f000;
    assert_eq!(memory.read(level1), 0x3000_0000 | AMD_PTE_PRESENT | AMD_PTE_READ_WRITE);
}

#[test]
fn amd_dte_encodes_domain_root_and_permissions() {
    let entry = amd_dte(0x1234_5000, 7);
    assert_eq!(entry[0] & 0x000f_ffff_ffff_f000, 0x1234_5000);
    assert_eq!(entry[0] >> 9 & 7, 4);
    assert_ne!(entry[0] & AMD_DTE_VALID, 0);
    assert_ne!(entry[0] & AMD_DTE_TRANSLATION_VALID, 0);
    assert_eq!(entry[0] & AMD_DTE_READ_WRITE, AMD_DTE_READ_WRITE);
    assert_eq!(entry[1], 7);
    assert_eq!(entry[2..], [0, 0]);
}

#[test]
fn amd_invalidation_sequence_covers_device_domain_and_completion() {
    let commands = amd_invalidation_commands(0x1234, 7, 0x1_2345_6000, 9);
    assert_eq!(
        commands[0],
        [0x1234, AMD_COMMAND_INVALIDATE_DTE << 28, 0, 0]
    );
    assert_eq!(commands[1][1], (AMD_COMMAND_INVALIDATE_PAGES << 28) | 7);
    assert_eq!(
        u64::from(commands[1][2]) | (u64::from(commands[1][3]) << 32),
        AMD_INVALIDATE_ALL_PAGES
    );
    assert_eq!(commands[2][0], 0x2345_6001);
    assert_eq!(commands[2][1], (AMD_COMMAND_COMPLETION_WAIT << 28) | 1);
    assert_eq!(commands[2][2], 9);
    assert_eq!(commands[2][3], 0);
}

#[test]
fn discovery_follows_the_tables_to_the_remapping_units() {
    let mut dmar = [0_u8; 64];
    dmar[50..52].copy_from_slice(&16_u16.to_le_bytes());
    dmar[52] = 1;
    dmar[56..64].copy_from_slice(&0xfed9_0000_u64.to_le_bytes());
    finish_table(&mut dmar, b"DMAR");
    let mut facp = [0_u8; 36];
    finish_table(&mut facp, b"FACP");
    let mut xsdt = [0_u8; 52];
    xsdt[36..44].copy_from_slice(&0x4000_u64.to_le_bytes());
    xsdt[44..52].copy_from_slice(&0x5000_u64.to_le_bytes());
    finish_table(&mut xsdt, b"XSDT");
    let mut pointer = [0_u8; 36];
    pointer[..8].copy_from_slice(b"RSD PTR ");
    pointer[15] = 2;
    pointer[20..24].copy_from_slice(&36_u32.to_le_bytes());
    pointer[24..32].copy_from_slice(&0x3000_u64.to_le_bytes());
    pointer[8] = 0_u8.wrapping_sub(pointer[..20].iter().fold(0_u8, |s, b| s.wrapping_add(*b)));
    pointer[32] = 0_u8.wrapping_sub(pointer.iter().fold(0_u8, |s, b| s.wrapping_add(*b)));
    assert!(checksum_is_zero(&pointer[..20]));
    assert!(checksum_is_zero(&pointer));

    let mut machine = vec![0_u8; 0x6000];
    machine[0x2000..0x2000 + pointer.len()].copy_from_slice(&pointer);
    machine[0x3000..0x3000 + xsdt.len()].copy_from_slice(&xsdt);
    machine[0x4000..0x4000 + facp.len()].copy_from_slice(&facp);
    machine[0x5000..0x5000 + dmar.len()].copy_from_slice(&dmar);
    let mut search = Discovery::new(0x2000);
    while let Some((address, length)) = search.request().unwrap() {
        let start = address as usize;
        search = search.discover(&machine[start..start + length]).unwrap();
    }
    let Discovery::Finished(Some(topology)) = search else {
        panic!("no topology was found");
    };
    assert_eq!(topology.unit_count(), 1);
    assert_eq!(topology.units()[0].register_base, 0xfed9_0000);

    machine[0x2000] = b'X';
    let search = Discovery::new(0x2000);
    let (address, length) = search.request().unwrap().unwrap();
    let start = address as usize;
    assert!(matches!(
        search.discover(&machine[start..start + length]),
        Err(Error::InvalidRsdp)
    ));
}

#[test]
fn detached_requesters_are_back_where_they_were() {
    let mut memory = table_memory(INTEL_TABLE_PAGES);
    let first = build_intel_tables(&mut memory, TABLES, &[]).unwrap();
    let mut arena = TableArena { base: TABLES, next_page: first, page_count: INTEL_TABLE_PAGES };
    let root = arena.allocate(&mut memory).unwrap();
    attach_intel_requester(&mut memory, &mut arena, 0x0010, 7, root).unwrap();
    let context = memory.read(TABLES) & !0xfff;
    assert_eq!(memory.read(context + 0x10 * 16) & !0xfff, root);
    assert_eq!(detach_intel_requester(&mut memory, TABLES, 0x0010, 7), Ok(true));
    assert_eq!(memory.read(context + 0x10 * 16), 0);

    let mut devices = table_memory(512);
    attach_amd_requester(&mut devices, TABLES, 0x0010, 7, 0x1234_5000).unwrap();
    assert_eq!(devices.read(TABLES + 0x10 * 32), amd_dte(0x1234_5000, 7)[0]);
    assert_eq!(detach_amd_requester(&mut devices, TABLES, 0x0010, 7), Ok(true));
    assert_ne!(devices.read(TABLES + 0x10 * 32), amd_dte(0x1234_5000, 7)[0]);
}

#[test]
fn table_pages_run_out() {
    let mut memory = table_memory(1);
    let mut arena = TableArena { base: TABLES, next_page: 0, page_count: 1 };
    assert_eq!(arena.allocate(&mut memory), Ok(TABLES));
    assert_eq!(arena.allocate(&mut memory), Err(Error::TableExhausted));
}

#[test]
fn too_many_units_are_refused() {
    let mut topology = IommuTopology::new(IommuKind::AmdVi);
    for index in 0..MAX_IOMMU_UNITS {
        let unit = IommuUnit {
            segment: 0,
            register_base: 0x1000 * (index as u64 + 1),
            include_all: true,
            scope_requesters: vec![],
        };
        topology.push(unit).unwrap();
    }
    let unit = IommuUnit {
        segment: 0,
        register_base: 0x9_0000,
        include_all: true,
        scope_requesters: vec![],
    };
    assert_eq!(topology.push(unit), Err(Error::TooManyUnits));
}

fn one_unit() -> IommuTopology {
    let mut topology = IommuTopology::new(IommuKind::IntelVtd);
    topology
        .push(IommuUnit {
            segment: 0,
            register_base: 0xfed9_0000,
            include_all: true,
            scope_requesters: vec![],
        })
        .unwrap();
    topology
}

fn intel_resources() -> IommuResources {
    IommuResources { remapping_table: TABLES, domain_tables: 0, command_buffer: 0, completion: 0 }
}

#[test]
fn an_assigned_device_reaches_its_domain_only() {
    assert_eq!(validate_resources(IommuKind::IntelVtd, &intel_resources()), Ok(()));
    let mut memory = table_memory(INTEL_TABLE_PAGES);
    let first = build_intel_tables(&mut memory, TABLES, &[]).unwrap();
    let mut remapper = DmaRemapper::initialize(one_unit(), &[intel_resources()]).unwrap();
    assert_eq!(remapper.plan_unit(0, None), Ok(true));
    remapper.enable_unit(0, first);
    assert_eq!(remapper.handling_units(0, 0x0010), vec![0]);
    assert_eq!(remapper.register_base(0), 0xfed9_0000);
    let assignment = remapper.assign(0, 0x0010, 2, 0x2000_0000, 8192).unwrap();
    assert_eq!(assignment.domain_id, 2);
    assert_eq!(assignment.phase, AssignPhase::Prepare { at: 0 });
    let (root, reserved) =
        remapper.prepare_unit(&mut memory, 0, 0, 0x0010, 2, 0x2000_0000, 8192).unwrap();
    let phase = assignment.phase.next(1, AssignOutcome::Prepared { root, reserved });
    assert_eq!(phase, AssignPhase::Attach { at: 0, root });
    remapper.attach_unit(&mut memory, 0, 0x0010, 2, root).unwrap();
    assert_eq!(phase.next(1, AssignOutcome::Done), AssignPhase::Succeeded);
    assert_eq!(remapper.detach(0, 0x0010, 2), Ok((2, vec![0])));
    assert_eq!(remapper.detach_unit(&mut memory, 0, 0x0010, 2), Ok(true));
    let uncovered = remapper.assign(1, 0x0010, 2, 0x2000_0000, 8192).unwrap();
    assert_eq!(uncovered.phase, AssignPhase::Refused(Error::DeviceNotCovered));
    assert!(remapper.assign(0, 0, 2, 0x2000_0000, 8192).is_err());
}

#[test]
fn failed_assignments_are_undone() {
    let failed = AssignPhase::Attach { at: 0, root: 0x1000 }
        .next(1, AssignOutcome::Failed(Error::TableExhausted));
    assert_eq!(failed, AssignPhase::Undo { at: 0, error: Error::TableExhausted });
    assert_eq!(
        failed.next(1, AssignOutcome::Done),
        AssignPhase::Refused(Error::TableExhausted)
    );
    assert!(check_domain_id(0).is_err());
    assert_eq!(check_domain_id(7), Ok(7));
}

#[test]
fn firmware_display_unit_is_left_for_later() {
    let plan = enable_deny_all(&one_unit(), &[TABLES], Some(0x0010));
    assert_eq!(plan.units, Vec::<usize>::new());
    assert_eq!(plan.error, None);
    let plan = enable_deny_all(&one_unit(), &[TABLES], None);
    assert_eq!(plan.units, vec![0]);
}

#[test]
fn translation_is_turned_on_last() {
    assert_eq!(check_intel_unit(TABLES, 0, 0), Err(Error::UnsupportedHardware));
    let program = enable_intel_protection(TABLES, 0, 0);
    let on = program
        .iter()
        .position(|op| {
            matches!(op, RegisterOp::Write32 { command, .. } if command & INTEL_TRANSLATION_ENABLE != 0)
        })
        .unwrap();
    let root = program
        .iter()
        .position(|op| matches!(op, RegisterOp::Write64 { word: TABLES, .. }))
        .unwrap();
    assert!(root < on);
    let replaced = replace_intel_protection(TABLES, 0, 0);
    assert_eq!(take_over_intel_unit(INTEL_TRANSLATION_ENABLE, TABLES, 0, 0), replaced);
    assert_eq!(take_over_intel_unit(0, TABLES, 0, 0), program);
    assert!(replaced.contains(&RegisterOp::Report(IntelTransitionStage::Root)));
    let waiting = RegisterOp::Await32 { offset: 0, bits: 4, set: true, limit: 10 };
    assert!(waiting.is_met(4));
    assert!(!waiting.is_met(3));
    assert_eq!(waiting.read_limit(), 10);
    assert_eq!(waiting.error(), Some(Error::CommandTimeout));
}

#[test]
fn amd_commands_wrap_around_the_buffer() {
    assert_eq!(queue_amd_command(0x1ff0, 0x100), Some(0));
    assert_eq!(queue_amd_command(0x1ff0, 0), None);
    assert_eq!(next_completion(u64::MAX), 1);
    assert_eq!(next_completion(4), 5);
    let resources = IommuResources {
        remapping_table: TABLES,
        domain_tables: 0x200_0000,
        command_buffer: 0x300_0000,
        completion: 0x400_0000,
    };
    assert!(enable_amd_protection(&resources).is_ok());
}

#[test]
fn amd_units_deny_everything_with_an_empty_table() {
    let program = enable_amd_deny_all(0x10_0000).unwrap();
    assert_eq!(program.len(), 7);
    assert_eq!(program[2], RegisterOp::Write64 { offset: 0, word: 0x10_01ff });
    assert_eq!(program[5], RegisterOp::Write64 { offset: 0x18, word: 1 });
    assert_eq!(enable_amd_deny_all(1 << 52).err(), Some(Error::InvalidResources));
}

#[test]
fn registers_are_read_from_the_unit_of_a_requester() {
    let mut memory = table_memory(INTEL_TABLE_PAGES);
    let first = build_intel_tables(&mut memory, TABLES, &[]).unwrap();
    let mut remapper = DmaRemapper::initialize(one_unit(), &[intel_resources()]).unwrap();
    assert_eq!(remapper.intel_register_snapshot(0, 0x0010), None);
    remapper.enable_unit(0, first);
    assert_eq!(remapper.intel_register_snapshot(0, 0x0010), Some(0xfed9_0000));
    assert_eq!(remapper.intel_register_snapshot(1, 0x0010), None);
}

#[test]
fn units_come_in_the_order_of_their_first_description() {
    let mut table = vec![0_u8; 48];
    for (base, include_all) in [
        (0xfed9_1000_u64, 0_u8),
        (0xfed9_0000, 0),
        (0xfed9_1000, 1),
        (0xfed9_2000, 1),
        (0xfed9_0000, 1),
    ] {
        table.extend_from_slice(&[0, 0, 16, 0, include_all, 0, 0, 0]);
        table.extend_from_slice(&base.to_le_bytes());
    }
    finish_table(&mut table, b"DMAR");
    let topology = parse_dmar(&table).unwrap();
    assert_eq!(topology.unit_count(), 3);
    let units: Vec<(u64, bool)> =
        topology.units().iter().map(|unit| (unit.register_base, unit.include_all)).collect();
    assert_eq!(units, [(0xfed9_1000, false), (0xfed9_0000, false), (0xfed9_2000, true)]);
}

#[test]
fn a_unit_needs_a_register_page() {
    for base in [0_u64, 0xfed9_0010] {
        let mut table = vec![0_u8; 48];
        table.extend_from_slice(&[0, 0, 16, 0, 1, 0, 0, 0]);
        table.extend_from_slice(&base.to_le_bytes());
        finish_table(&mut table, b"DMAR");
        assert_eq!(parse_dmar(&table), Err(Error::InvalidTable));
    }
}

/// What four levels of tables lead to.
fn walked(memory: &PhysicalMemory, root: u64, address: u64) -> Option<u64> {
    let mut table = root;
    for shift in [39, 30, 21] {
        let entry = memory.read(table + 8 * (address >> shift & 511));
        if shift == 21 && entry & 0x80 != 0 {
            return Some(entry);
        }
        table = entry & 0x000f_ffff_ffff_f000;
        if table == 0 {
            return None;
        }
    }
    let entry = memory.read(table + 8 * (address >> 12 & 511));
    if entry == 0 {
        None
    } else {
        Some(entry)
    }
}

#[test]
fn an_assigned_device_reaches_its_domain_and_its_own_ranges() {
    let mut topology = one_unit();
    for (requester, base) in [(0x0010, 0x7000_0000_u64), (0x0018, 0x7100_0000)] {
        topology
            .push_reserved_mapping(ReservedMapping {
                segment: 0,
                requester,
                base,
                limit: base + 0xfff,
            })
            .unwrap();
    }
    let mut memory = table_memory(INTEL_TABLE_PAGES);
    let first = build_intel_tables(&mut memory, TABLES, &[]).unwrap();
    let mut remapper = DmaRemapper::initialize(topology, &[intel_resources()]).unwrap();
    remapper.enable_unit(0, first);
    let (root, reserved) =
        remapper.prepare_unit(&mut memory, 0, 0, 0x0010, 2, 0x2000_0000, 8192).unwrap();
    assert!(reserved);
    remapper.attach_unit(&mut memory, 0, 0x0010, 2, root).unwrap();
    let contexts = memory.read(TABLES) & !0xfff;
    assert_eq!(memory.read(contexts + 16 * 0x10) & !0xfff, root);
    assert_eq!(walked(&memory, root, 0), Some(0x2000_0003));
    assert_eq!(walked(&memory, root, 0x1000), Some(0x2000_1003));
    assert_eq!(walked(&memory, root, 0x2000), None);
    assert_eq!(walked(&memory, root, 0x7000_0000), Some(0x7000_0003));
    assert_eq!(walked(&memory, root, 0x7100_0000), None);
}
