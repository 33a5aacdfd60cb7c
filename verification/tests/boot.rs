use mboot::abi::{Hypercall, DOMAIN_ROLE_APPLICATION, DOMAIN_ROLE_HARDWARE, DOMAIN_ROLE_SYSTEM};
use mboot::boot_memory::{BootMemoryMap, MemoryRegion, MAX_MEMORY_REGIONS};
use mboot::domain::{abi_backend, abi_domain_role, DomainRole};
use mboot::entropy::{collect_boot_entropy, derive_domain_entropy, domain_message, root_message};
use mboot::halt::{halt_error_code, halt_with_error, iommu_error, HaltReport, Stage};
use mboot::layout::{
    align_up_4k, device_window_start, domain_stack_bottom, domain_stack_pointer,
    grant_window_contains, grant_window_start, guest_pages, nested_page_counts, place_framebuffer,
    FramebufferPlacement, NestedPageCounts,
};
use mboot::manifest::ManifestDomainRole;
use mboot::msr::{allow_guest_msr, msr_permission_map, PERMISSION_MAP_BYTES};
use mboot::network::{
    check_bundle_size, check_received, pxe_boot_source, sibling_tftp_path, BootReply,
    NetworkError, MAX_NETWORK_BUNDLE_SIZE, NETWORK_BUNDLE_NAME,
};
use mboot::{iommu, BackendKind, Error};

#[test]
fn device_registers_do_not_overlap_memory() {
    let mut map = BootMemoryMap::default();
    assert!(map.is_empty());
    assert_eq!(map.lowest_address(), 0);
    map.push(MemoryRegion::of_pages(0x10_0000, 16, true, false));
    map.push(MemoryRegion::of_pages(0x8_0000, 2, false, false));
    map.push(MemoryRegion::of_pages(0xfed0_0000, 1, false, true));
    assert_eq!(map.len(), 3);
    assert_eq!(map.usable_bytes(), 0x1_0000);
    assert_eq!(map.lowest_address(), 0x8_0000);
    assert!(map.allows_device_mmio(0x20_0000, 0x1000));
    assert!(map.allows_device_mmio(0xfed0_0000, 0x2000));
    assert!(!map.allows_device_mmio(0x10_f000, 0x1000));
    assert!(map.allows_device_mmio(0x11_0000, 0x1000));
    assert!(!map.allows_device_mmio(0x7_f000, 0x2000));
    assert!(!map.allows_device_mmio(0, 0x1000));
    assert!(!map.allows_device_mmio(0x20_0000, 0));
    assert!(!map.allows_device_mmio(0x20_0100, 0x1000));
    assert!(!map.allows_device_mmio(0x20_0000, 0x800));
    assert!(!map.allows_device_mmio(0xffff_ffff_ffff_f000, 0x1000));
}

#[test]
fn an_incomplete_memory_map_allows_no_device() {
    let mut map = BootMemoryMap::new();
    for index in 0..MAX_MEMORY_REGIONS as u64 {
        map.push(MemoryRegion::of_pages(0x1000_0000 + index * 0x1000, 1, true, false));
    }
    assert!(map.allows_device_mmio(0x20_0000, 0x1000));
    map.push(MemoryRegion::of_pages(0x20_0000, 1, true, false));
    assert_eq!(map.len(), MAX_MEMORY_REGIONS);
    assert!(!map.allows_device_mmio(0x8000_0000, 0x1000));
}

#[test]
fn windows_lie_at_the_top_of_domain_memory() {
    let size = 0x100_0000;
    assert_eq!(grant_window_start(size), 0xff_0000);
    assert_eq!(device_window_start(size), 0xfb_0000);
    assert_eq!(domain_stack_bottom(size), 0xeb_0000);
    assert_eq!(domain_stack_pointer(size), 0xfa_fff0);
    assert!(grant_window_contains(size, 0xff_0000));
    assert!(grant_window_contains(size, 0xff_f000));
    assert!(!grant_window_contains(size, 0xff_0800));
    assert!(!grant_window_contains(size, 0xfe_f000));
    assert!(!grant_window_contains(size, 0x100_0000));
}

#[test]
fn domain_memory_has_limits() {
    assert_eq!(guest_pages(96 * 4096), Some(96));
    assert_eq!(guest_pages(95 * 4096), None);
    assert_eq!(guest_pages(65_536 * 4096), Some(65_536));
    assert_eq!(guest_pages(65_537 * 4096), None);
    assert_eq!(align_up_4k(1), 0x1000);
    assert_eq!(align_up_4k(0x1000), 0x1000);
    assert_eq!(
        nested_page_counts(513),
        NestedPageCounts { level3: 2, level2: 1024, level1: 2, device_level1: 256, guest: 513 }
    );
}

#[test]
fn the_framebuffer_keeps_its_address_within_its_page() {
    assert_eq!(
        place_framebuffer(0x8000_0123, 0x10_0000, 0x100_0000),
        Some(FramebufferPlacement {
            host_page: 0x8000_0000,
            guest_page: 0x1000_0000,
            mapped_len: 0x10_1000,
            guest_address: 0x1000_0123,
        })
    );
    assert_eq!(place_framebuffer(0x8000_0000, u64::MAX, 0x100_0000), None);
}

#[test]
fn halt_reports_name_the_stage() {
    assert_eq!(Stage::DomainHypercall.name(), "Domain Hypercall");
    assert_eq!(halt_error_code(Stage::NestedPageTable, Error::InvalidPage), 20);
    assert_eq!(halt_error_code(Stage::Virtualization, Error::NestedPagingUnavailable), 32);
    assert_eq!(halt_error_code(Stage::Virtualization, Error::InvalidState), 30);
    assert_eq!(halt_error_code(Stage::VcpuEntry, Error::VmcsLoadFailed), 52);
    assert_eq!(halt_error_code(Stage::GrantCleanup, Error::InvalidState), 58);
    assert_eq!(halt_error_code(Stage::VcpuReset, Error::InvalidState), 10);
    assert_eq!(
        halt_with_error(Stage::VcpuEntry, Error::GuestEntryFailed(7)),
        HaltReport::GuestEntry(7)
    );
    assert_eq!(
        halt_with_error(Stage::Virtualization, Error::VmcsWriteFailed(0x6c16)),
        HaltReport::VmcsField(0x6c16)
    );
    assert_eq!(halt_with_error(Stage::DomainStop, Error::InvalidState), HaltReport::Code(54));
    assert_eq!(iommu_error(iommu::Error::CommandTimeout), Error::IommuCommandTimeout);
}

#[test]
fn boot_entropy_is_hashed_and_wiped() {
    let mut material = [0u8; 64];
    for (index, byte) in material.iter_mut().enumerate() {
        *byte = index as u8;
    }
    let message = root_message(&material, true, false);
    assert_eq!(message.len(), 28 + 2 + 64);
    assert_eq!(&message[..28], b"mBoot Domain entropy root v1");
    assert_eq!(message[28..30], [1, 0]);
    assert_eq!(collect_boot_entropy(&mut material, false, false), None);
    assert_eq!(material[5], 5);
    let root = collect_boot_entropy(&mut material, true, false).unwrap();
    assert_eq!(material, [0; 64]);
    assert_eq!(
        root,
        [
            0x7c, 0x13, 0xf3, 0x7e, 0x2c, 0x9d, 0xc0, 0xa3, 0x02, 0x63, 0x11, 0x2f, 0x9b, 0x7e,
            0x98, 0xad, 0x29, 0x07, 0xf9, 0x5b, 0xc9, 0xf7, 0x59, 0x66, 0xce, 0xfd, 0xa1, 0x13,
            0xb3, 0x23, 0x3d, 0x07,
        ]
    );
}

#[test]
fn every_start_of_a_domain_has_its_own_seed() {
    let root = [7u8; 32];
    assert_eq!(domain_message(&root, 2, 3).len(), 23 + 32 + 8);
    let seed = derive_domain_entropy(&root, 2, 3);
    assert_eq!(
        seed,
        [
            0x93, 0x7f, 0x56, 0x1d, 0x88, 0xf6, 0xd9, 0x51, 0xe1, 0x21, 0x5c, 0x42, 0xf4, 0x08,
            0x3b, 0xbf, 0xf5, 0x39, 0x82, 0xd4, 0xc6, 0xf9, 0x1e, 0x3a, 0x87, 0x54, 0x0a, 0x79,
            0xe2, 0x14, 0x85, 0x52,
        ]
    );
    assert_ne!(seed, derive_domain_entropy(&root, 2, 4));
    assert_ne!(seed, derive_domain_entropy(&root, 3, 3));
}

fn bit(map: &[u8], index: usize) -> bool {
    map[index / 8] & (1 << (index % 8)) != 0
}

#[test]
fn guests_use_only_listed_registers_directly() {
    let intel = msr_permission_map(BackendKind::IntelVmx);
    assert_eq!(intel.len(), PERMISSION_MAP_BYTES);
    assert!(!bit(&intel, 0x174));
    assert!(!bit(&intel, 2048 * 8 + 0x174));
    assert!(bit(&intel, 0x173));
    assert!(bit(&intel, 0x1b));
    let amd = msr_permission_map(BackendKind::AmdSvm);
    assert!(!bit(&amd, 2 * 0x174));
    assert!(!bit(&amd, 2 * 0x174 + 1));
    assert!(!bit(&amd, 2048 * 8 + 2 * 0x80));
    assert!(bit(&amd, 2 * 0x173));
    assert!(bit(&amd, 2048 * 8 + 2 * 0x79));
}

#[test]
fn a_register_without_bits_changes_no_map() {
    let mut map = vec![0xffu8; PERMISSION_MAP_BYTES];
    allow_guest_msr(&mut map, BackendKind::IntelVmx, 0x4000_0000);
    assert_eq!(map, vec![0xff; PERMISSION_MAP_BYTES]);
    allow_guest_msr(&mut map, BackendKind::IntelVmx, 0xc000_0101);
    assert!(!bit(&map, 1024 * 8 + 0x101));
    assert!(!bit(&map, 3072 * 8 + 0x101));
    assert_eq!(map.iter().map(|byte| byte.count_zeros()).sum::<u32>(), 2);
}

fn reply(received: bool, server: [u8; 4]) -> BootReply {
    BootReply { received, server, boot_file: [0; 128] }
}

#[test]
fn the_first_reply_that_names_a_server_is_used() {
    let replies = [
        reply(false, [10, 0, 0, 1]),
        reply(true, [0; 4]),
        reply(true, [10, 0, 0, 3]),
        reply(true, [10, 0, 0, 4]),
    ];
    assert_eq!(pxe_boot_source(false, &replies), Ok(2));
    assert_eq!(pxe_boot_source(true, &replies), Err(NetworkError::Unsupported));
    assert_eq!(pxe_boot_source(false, &replies[..2]), Err(NetworkError::NotFound));
}

#[test]
fn the_bundle_lies_beside_the_boot_file() {
    assert_eq!(
        sibling_tftp_path(b"efi/boot/bootx64.efi\0ignored", &NETWORK_BUNDLE_NAME),
        Ok(b"efi/boot/mboot.bundle\0".to_vec())
    );
    assert_eq!(
        sibling_tftp_path(b"efi\\mboot.efi", b"x"),
        Ok(b"efi\\x\0".to_vec())
    );
    assert_eq!(sibling_tftp_path(b"mboot.efi", b"x"), Ok(b"x\0".to_vec()));
    assert_eq!(sibling_tftp_path(b"\xc3\xa9/x", b"x"), Err(NetworkError::InvalidParameter));
}

#[test]
fn bundles_have_a_size_limit() {
    assert_eq!(check_bundle_size(31), Err(NetworkError::BadBufferSize));
    assert_eq!(check_bundle_size(32), Ok(32));
    assert_eq!(check_bundle_size(MAX_NETWORK_BUNDLE_SIZE), Ok(0x1000_0000));
    assert_eq!(
        check_bundle_size(MAX_NETWORK_BUNDLE_SIZE + 1),
        Err(NetworkError::BadBufferSize)
    );
    assert_eq!(check_received(100, 100), Ok(100));
    assert_eq!(check_received(101, 100), Err(NetworkError::BadBufferSize));
}

#[test]
fn roles_and_backends_have_numbers() {
    assert_eq!(abi_domain_role(DomainRole::System), DOMAIN_ROLE_SYSTEM);
    assert_eq!(
        abi_domain_role(DomainRole::of_manifest(ManifestDomainRole::Hardware)),
        DOMAIN_ROLE_HARDWARE
    );
    assert_eq!(abi_domain_role(DomainRole::Application), DOMAIN_ROLE_APPLICATION);
    assert_eq!(abi_backend(BackendKind::IntelVmx), 1);
    assert_eq!(abi_backend(BackendKind::AmdSvm), 2);
    assert_eq!(Hypercall::from_number(u64::MAX), None);
}
