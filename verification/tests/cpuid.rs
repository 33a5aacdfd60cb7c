use mboot::cpuid::{query, HYPERVISOR_VENDOR, LEAF1_ECX_HYPERVISOR, LEAF1_ECX_X2APIC};
use mboot::CpuidResult;

fn test_query(
    leaf: u32,
    subleaf: u32,
    apic_id: u32,
    vcpu_count: u32,
    tsc_frequency_khz: u32,
    hypervisor_backend: u32,
) -> CpuidResult {
    query(
        leaf,
        subleaf,
        apic_id,
        vcpu_count,
        tsc_frequency_khz,
        hypervisor_backend,
        0x3ff_0000,
        0x1_0000,
    )
}

#[test]
fn hides_nested_virtualization_and_identifies_mboot() {
    let features = test_query(1, 0, 0, 1, 2_400_000, 1);
    assert_eq!(features.ecx & (1 << 5), 0);
    assert_ne!(features.ecx & LEAF1_ECX_HYPERVISOR, 0);
    assert_ne!(features.ecx & LEAF1_ECX_X2APIC, 0);
    assert_eq!(test_query(0x8000_0001, 0, 0, 1, 2_400_000, 1).ecx & (1 << 2), 0);

    let vendor = test_query(0x4000_0000, 0, 0, 1, 2_400_000, 1);
    let bytes = [vendor.ebx, vendor.ecx, vendor.edx].map(u32::to_le_bytes).concat();
    assert_eq!(bytes, HYPERVISOR_VENDOR);
}

#[test]
fn reports_domain_topology_instead_of_host_topology() {
    let leaf = test_query(0x0b, 1, 3, 4, 2_400_000, 1);
    assert_eq!(leaf.eax, 2);
    assert_eq!(leaf.ebx, 4);
    assert_eq!(leaf.edx, 3);
}

#[test]
fn unsupported_leaves_are_empty() {
    assert_eq!(test_query(0x1234_5678, 0, 0, 1, 2_400_000, 1), CpuidResult::default());
    assert_eq!(test_query(7, 1, 0, 1, 2_400_000, 1), CpuidResult::default());
}

#[test]
fn reports_the_virtual_tsc_frequency_to_guests() {
    let leaf = test_query(0x4000_0001, 0, 0, 1, 2_400_000, 2);
    assert_eq!(leaf.ebx, 2_400_000);
    assert_eq!(leaf.ecx, 2);
}

#[test]
fn reports_the_domain_grant_window() {
    let leaf = test_query(0x4000_0002, 0, 0, 1, 2_400_000, 2);
    assert_eq!(u64::from(leaf.eax) | (u64::from(leaf.ebx) << 32), 0x3ff_0000);
    assert_eq!(u64::from(leaf.ecx) | (u64::from(leaf.edx) << 32), 0x1_0000);
}

#[test]
fn topology_order_is_rounded_up() {
    assert_eq!(test_query(0x0b, 1, 0, 5, 0, 1).eax, 3);
    assert_eq!(test_query(0x0b, 1, 0, 8, 0, 1).eax, 3);
    assert_eq!(test_query(0x0b, 1, 0, 9, 0, 1).eax, 4);
}
