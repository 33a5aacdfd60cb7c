//! The CPU model that a Domain sees.

use vstd::prelude::*;
use vstd::arithmetic::power2::{lemma2_to64, lemma_pow2_unfold, pow2};

use crate::bytes::{read_u32, u32_at};
use crate::CpuidResult;

verus! {

pub const MAX_BASIC_LEAF: u32 = 0x0b;

pub const MAX_EXTENDED_LEAF: u32 = 0x8000_0008;

pub const MAX_HYPERVISOR_LEAF: u32 = 0x4000_0002;

/// `MochiOS CPU` and a space.
pub const CPU_VENDOR: [u8; 12] = [
    0x4d, 0x6f, 0x63, 0x68, 0x69, 0x4f, 0x53, 0x20, 0x43, 0x50, 0x55, 0x20,
];

/// `MochiOSmBoot`.
pub const HYPERVISOR_VENDOR: [u8; 12] = [
    0x4d, 0x6f, 0x63, 0x68, 0x69, 0x4f, 0x53, 0x6d, 0x42, 0x6f, 0x6f, 0x74,
];

/// `mochiOS Virtual CPU`, filled up with spaces.
pub const CPU_BRAND: [u8; 48] = [
    0x6d, 0x6f, 0x63, 0x68, 0x69, 0x4f, 0x53, 0x20, 0x56, 0x69, 0x72, 0x74, 0x75, 0x61, 0x6c, 0x20,
    0x43, 0x50, 0x55, 0x20, 0x20, 0x20, 0x20, 0x20, 0x20, 0x20, 0x20, 0x20, 0x20, 0x20, 0x20, 0x20,
    0x20, 0x20, 0x20, 0x20, 0x20, 0x20, 0x20, 0x20, 0x20, 0x20, 0x20, 0x20, 0x20, 0x20, 0x20, 0x20,
];

pub const LEAF1_ECX_X2APIC: u32 = 0x0020_0000;

pub const LEAF1_ECX_HYPERVISOR: u32 = 0x8000_0000;

pub const LEAF1_ECX: u32 = 0x8020_0000;

/// FPU, TSC, MSR, PAE, CX8, APIC, CMOV, MMX, FXSR, SSE and SSE2.
pub const LEAF1_EDX_BASELINE: u32 = 0x0780_8371;

/// SYSCALL, NX and long mode.
pub const EXTENDED_EDX: u32 = 0x2010_0800;

/// 36 physical and 48 linear address bits.
pub const ADDRESS_BITS: u32 = 0x3024;

pub open spec fn clamped(value: int, least: int, most: int) -> int {
    if value < least {
        least
    } else if value > most {
        most
    } else {
        value
    }
}

/// The number of bits that tell `n` things apart.
pub open spec fn order(n: int) -> int
    decreases n,
{
    if n <= 1 {
        0
    } else {
        1 + order((n + 1) / 2)
    }
}

pub open spec fn no_features() -> CpuidResult {
    CpuidResult { eax: 0, ebx: 0, ecx: 0, edx: 0 }
}

/// A vendor string, in the order of a CPU or in that of a hypervisor.
pub open spec fn vendor(max_leaf: u32, name: Seq<u8>, hypervisor_order: bool) -> CpuidResult {
    CpuidResult {
        eax: max_leaf,
        ebx: u32_at(name, 0),
        ecx: if hypervisor_order {
            u32_at(name, 4)
        } else {
            u32_at(name, 8)
        },
        edx: if hypervisor_order {
            u32_at(name, 8)
        } else {
            u32_at(name, 4)
        },
    }
}

/// The topology of the Domain: one thread to a core, all cores in one package.
pub open spec fn topology(subleaf: u32, apic_id: u32, vcpu_count: u32) -> CpuidResult {
    let processors = clamped(vcpu_count as int, 1, 0xffff);
    if subleaf == 0 {
        CpuidResult { eax: 0, ebx: 1, ecx: 0x100, edx: apic_id }
    } else if subleaf == 1 {
        CpuidResult {
            eax: order(processors) as u32,
            ebx: processors as u32,
            ecx: 0x201,
            edx: apic_id,
        }
    } else {
        CpuidResult { edx: apic_id, ..no_features() }
    }
}

/// Sixteen bytes of the brand string.
pub open spec fn brand(leaf: u32) -> CpuidResult {
    let at = 16 * (leaf - 0x8000_0002);
    CpuidResult {
        eax: u32_at(CPU_BRAND@, at),
        ebx: u32_at(CPU_BRAND@, at + 4),
        ecx: u32_at(CPU_BRAND@, at + 8),
        edx: u32_at(CPU_BRAND@, at + 12),
    }
}

/// What is known of a Domain where its CPU model shows it.
#[derive(Clone, Copy, Debug, PartialEq, Eq, Structural)]
pub struct CpuModel {
    pub apic_id: u32,
    pub vcpu_count: u32,
    pub tsc_frequency_khz: u32,
    pub hypervisor_backend: u32,
    pub grant_window_start: u64,
    pub grant_window_size: u64,
}

/// The CPU model, leaf by leaf. Every leaf that is not named is empty.
pub open spec fn features(leaf: u32, subleaf: u32, model: CpuModel) -> CpuidResult {
    if leaf == 0 {
        vendor(MAX_BASIC_LEAF, CPU_VENDOR@, false)
    } else if leaf == 1 {
        CpuidResult {
            eax: 0x0000_06a0,
            ebx: (model.apic_id % 0x100 * 0x100_0000 + clamped(model.vcpu_count as int, 1, 0xff)
                * 0x1_0000) as u32,
            ecx: LEAF1_ECX,
            edx: LEAF1_EDX_BASELINE,
        }
    } else if leaf == 7 && subleaf == 0 {
        CpuidResult { ebx: 1, ..no_features() }
    } else if leaf == 0x0b {
        topology(subleaf, model.apic_id, model.vcpu_count)
    } else if leaf == 0x4000_0000 {
        vendor(MAX_HYPERVISOR_LEAF, HYPERVISOR_VENDOR@, true)
    } else if leaf == 0x4000_0001 {
        CpuidResult {
            eax: 1,
            ebx: model.tsc_frequency_khz,
            ecx: model.hypervisor_backend,
            edx: 0,
        }
    } else if leaf == 0x4000_0002 {
        CpuidResult {
            eax: (model.grant_window_start % 0x1_0000_0000) as u32,
            ebx: (model.grant_window_start / 0x1_0000_0000) as u32,
            ecx: (model.grant_window_size % 0x1_0000_0000) as u32,
            edx: (model.grant_window_size / 0x1_0000_0000) as u32,
        }
    } else if leaf == 0x8000_0000 {
        CpuidResult { eax: MAX_EXTENDED_LEAF, ..no_features() }
    } else if leaf == 0x8000_0001 {
        CpuidResult { edx: EXTENDED_EDX, ..no_features() }
    } else if 0x8000_0002 <= leaf <= 0x8000_0004 {
        brand(leaf)
    } else if leaf == 0x8000_0008 {
        CpuidResult { eax: ADDRESS_BITS, ..no_features() }
    } else {
        no_features()
    }
}

/// Returns the stable CPU model exposed to a mochiOS domain.
///
/// `apic_id` and `vcpu_count` describe the domain, not the physical host.
pub fn query(
    leaf: u32,
    subleaf: u32,
    apic_id: u32,
    vcpu_count: u32,
    tsc_frequency_khz: u32,
    hypervisor_backend: u32,
    grant_window_start: u64,
    grant_window_size: u64,
) -> (r: CpuidResult)
    ensures
        r == features(
            leaf,
            subleaf,
            (CpuModel {
                apic_id,
                vcpu_count,
                tsc_frequency_khz,
                hypervisor_backend,
                grant_window_start,
                grant_window_size,
            }),
        ),
{
    let empty = CpuidResult { eax: 0, ebx: 0, ecx: 0, edx: 0 };
    match leaf {
        0 => {
            let name = CPU_VENDOR;
            vendor_leaf(MAX_BASIC_LEAF, &name, false)
        },
        1 => CpuidResult {
            eax: 0x0000_06a0,
            ebx: apic_id % 0x100 * 0x100_0000 + clamp(vcpu_count, 0xff) * 0x1_0000,
            ecx: LEAF1_ECX,
            edx: LEAF1_EDX_BASELINE,
        },
        // FSGSBASE lets a guest manage its thread-local FS/GS values without
        // granting access to arbitrary host MSRs.
        7 => if subleaf == 0 {
            CpuidResult { ebx: 1, ..empty }
        } else {
            empty
        },
        0x0b => topology_leaf(subleaf, apic_id, vcpu_count),
        0x4000_0000 => {
            let name = HYPERVISOR_VENDOR;
            vendor_leaf(MAX_HYPERVISOR_LEAF, &name, true)
        },
        // mBoot interface leaf: ABI version, virtual TSC kHz, backend ID.
        0x4000_0001 => CpuidResult {
            eax: 1,
            ebx: tsc_frequency_khz,
            ecx: hypervisor_backend,
            edx: 0,
        },
        // Domain-local Grant window. Values are guest physical addresses.
        0x4000_0002 => CpuidResult {
            eax: (grant_window_start % 0x1_0000_0000) as u32,
            ebx: (grant_window_start / 0x1_0000_0000) as u32,
            ecx: (grant_window_size % 0x1_0000_0000) as u32,
            edx: (grant_window_size / 0x1_0000_0000) as u32,
        },
        0x8000_0000 => CpuidResult { eax: MAX_EXTENDED_LEAF, ..empty },
        0x8000_0001 => CpuidResult { edx: EXTENDED_EDX, ..empty },
        0x8000_0002 | 0x8000_0003 | 0x8000_0004 => brand_leaf(leaf),
        0x8000_0008 => CpuidResult { eax: ADDRESS_BITS, ..empty },
        _ => empty,
    }
}

/// The count, at least one and at most `most`.
fn clamp(value: u32, most: u32) -> (r: u32)
    requires
        most >= 1,
    ensures
        r == clamped(value as int, 1, most as int),
{
    if value < 1 {
        1
    } else if value > most {
        most
    } else {
        value
    }
}

fn vendor_leaf(max_leaf: u32, name: &[u8; 12], hypervisor_order: bool) -> (r: CpuidResult)
    ensures
        r == vendor(max_leaf, name@, hypervisor_order),
{
    let first: u32 = read_u32(name, 0).unwrap();
    let second: u32 = read_u32(name, 4).unwrap();
    let third: u32 = read_u32(name, 8).unwrap();
    if hypervisor_order {
        CpuidResult { eax: max_leaf, ebx: first, ecx: second, edx: third }
    } else {
        CpuidResult { eax: max_leaf, ebx: first, ecx: third, edx: second }
    }
}

fn topology_leaf(subleaf: u32, apic_id: u32, vcpu_count: u32) -> (r: CpuidResult)
    ensures
        r == topology(subleaf, apic_id, vcpu_count),
{
    let processors: u32 = clamp(vcpu_count, 0xffff);
    match subleaf {
        0 => CpuidResult { eax: 0, ebx: 1, ecx: 0x100, edx: apic_id },
        1 => CpuidResult { eax: order_of(processors), ebx: processors, ecx: 0x201, edx: apic_id },
        _ => CpuidResult { eax: 0, ebx: 0, ecx: 0, edx: apic_id },
    }
}

fn order_of(n: u32) -> (r: u32)
    requires
        n <= 0xffff,
    ensures
        r == order(n as int),
{
    let mut bits: u32 = 0;
    let mut left: u32 = n;
    while left > 1
        invariant
            left <= 0xffff,
            bits + left <= 0xffff,
            order(n as int) == bits + order(left as int),
        decreases left,
    {
        left = (left + 1) / 2;
        bits += 1;
    }
    bits
}

fn brand_leaf(leaf: u32) -> (r: CpuidResult)
    requires
        0x8000_0002 <= leaf <= 0x8000_0004,
    ensures
        r == brand(leaf),
{
    let name = CPU_BRAND;
    let at: usize = ((leaf - 0x8000_0002) * 16) as usize;
    CpuidResult {
        eax: read_u32(&name, at).unwrap(),
        ebx: read_u32(&name, at + 4).unwrap(),
        ecx: read_u32(&name, at + 8).unwrap(),
        edx: read_u32(&name, at + 12).unwrap(),
    }
}

/// A Domain finds neither VMX nor SVM on its CPU, and finds that a hypervisor
/// runs it.
pub proof fn law_nested_virtualization_is_hidden(subleaf: u32, model: CpuModel)
    ensures
        features(1, subleaf, model).ecx & 0x20 == 0,
        features(0x8000_0001, subleaf, model).ecx & 4 == 0,
        features(1, subleaf, model).ecx & LEAF1_ECX_HYPERVISOR != 0,
        features(1, subleaf, model).ecx & LEAF1_ECX_X2APIC != 0,
{
    assert(0x8020_0000u32 & 0x20 == 0 && 0x8020_0000u32 & 0x8000_0000 != 0 && 0x8020_0000u32
        & 0x0020_0000 != 0 && 0u32 & 4 == 0) by (bit_vector);
}

/// No leaf past the ones that the model announces holds anything.
pub proof fn law_unsupported_leaves_are_empty(leaf: u32, subleaf: u32, model: CpuModel)
    requires
        MAX_BASIC_LEAF < leaf < 0x4000_0000 || MAX_HYPERVISOR_LEAF < leaf < 0x8000_0000 || leaf
            > MAX_EXTENDED_LEAF,
    ensures
        features(leaf, subleaf, model) == no_features(),
{
}

/// The order is the least number of bits that suffices.
pub proof fn law_order_is_least(n: int)
    requires
        n >= 1,
    ensures
        pow2(order(n) as nat) >= n,
        order(n) > 0 ==> pow2((order(n) - 1) as nat) < n,
        order(n) >= 0,
    decreases n,
{
    lemma2_to64();
    if n > 1 {
        let half = (n + 1) / 2;
        law_order_is_least(half);
        lemma_pow2_unfold(order(n) as nat);
        if order(n) > 1 {
            lemma_pow2_unfold((order(n) - 1) as nat);
        }
    }
}

/// The vendor of the CPU reads "MochiOS CPU " in EBX, EDX and ECX, and that of the
/// hypervisor "MochiOSmBoot" in EBX, ECX and EDX; each says how far its leaves go.
pub proof fn law_vendors_are_spelled_out(subleaf: u32, model: CpuModel)
    ensures
        features(0, subleaf, model) == (CpuidResult {
            eax: 0x0b,
            ebx: 0x6863_6f4d,
            edx: 0x2053_4f69,
            ecx: 0x2055_5043,
        }),
        features(0x4000_0000, subleaf, model) == (CpuidResult {
            eax: 0x4000_0002,
            ebx: 0x6863_6f4d,
            ecx: 0x6d53_4f69,
            edx: 0x746f_6f42,
        }),
        features(0x8000_0000, subleaf, model) == (CpuidResult {
            eax: 0x8000_0008,
            ebx: 0,
            ecx: 0,
            edx: 0,
        }),
{
    let a = CPU_VENDOR@;
    let b = HYPERVISOR_VENDOR@;
    assert(a[0] == 0x4d && a[1] == 0x6f && a[2] == 0x63 && a[3] == 0x68 && a[4] == 0x69 && a[5]
        == 0x4f && a[6] == 0x53 && a[7] == 0x20 && a[8] == 0x43 && a[9] == 0x50 && a[10] == 0x55
        && a[11] == 0x20);
    assert(b[0] == 0x4d && b[1] == 0x6f && b[2] == 0x63 && b[3] == 0x68 && b[4] == 0x69 && b[5]
        == 0x4f && b[6] == 0x53 && b[7] == 0x6d && b[8] == 0x42 && b[9] == 0x6f && b[10] == 0x6f
        && b[11] == 0x74);
}

/// The brand reads "mochiOS Virtual CPU" and spaces, over three leaves.
pub proof fn law_brand_is_spelled_out(subleaf: u32, model: CpuModel)
    ensures
        features(0x8000_0002, subleaf, model) == (CpuidResult {
            eax: 0x6863_6f6d,
            ebx: 0x2053_4f69,
            ecx: 0x7472_6956,
            edx: 0x206c_6175,
        }),
        features(0x8000_0003, subleaf, model) == (CpuidResult {
            eax: 0x2055_5043,
            ebx: 0x2020_2020,
            ecx: 0x2020_2020,
            edx: 0x2020_2020,
        }),
        features(0x8000_0004, subleaf, model) == (CpuidResult {
            eax: 0x2020_2020,
            ebx: 0x2020_2020,
            ecx: 0x2020_2020,
            edx: 0x2020_2020,
        }),
{
    let a = CPU_BRAND@;
    assert(a[0] == 0x6d && a[1] == 0x6f && a[2] == 0x63 && a[3] == 0x68 && a[4] == 0x69 && a[5]
        == 0x4f && a[6] == 0x53 && a[7] == 0x20 && a[8] == 0x56 && a[9] == 0x69 && a[10] == 0x72
        && a[11] == 0x74 && a[12] == 0x75 && a[13] == 0x61 && a[14] == 0x6c && a[15] == 0x20);
    assert(a[16] == 0x43 && a[17] == 0x50 && a[18] == 0x55 && a[19] == 0x20 && a[20] == 0x20
        && a[21] == 0x20 && a[22] == 0x20 && a[23] == 0x20 && a[24] == 0x20 && a[25] == 0x20
        && a[26] == 0x20 && a[27] == 0x20 && a[28] == 0x20 && a[29] == 0x20 && a[30] == 0x20
        && a[31] == 0x20);
    assert(a[32] == 0x20 && a[33] == 0x20 && a[34] == 0x20 && a[35] == 0x20 && a[36] == 0x20
        && a[37] == 0x20 && a[38] == 0x20 && a[39] == 0x20 && a[40] == 0x20 && a[41] == 0x20
        && a[42] == 0x20 && a[43] == 0x20 && a[44] == 0x20 && a[45] == 0x20 && a[46] == 0x20
        && a[47] == 0x20);
}

/// The CPU shows the Domain's topology and no host's: its own number in the top byte of
/// EBX, with the number of its CPUs, at least one, below; one thread to a core, and all
/// cores in one package, whose order is the least that tells them apart.
pub proof fn law_topology_is_the_domains(subleaf: u32, model: CpuModel)
    ensures
        ({
            let r = features(1, subleaf, model);
            &&& r.eax == 0x6a0
            &&& r.ebx / 0x100_0000 == model.apic_id % 0x100
            &&& r.ebx / 0x1_0000 % 0x100 == (if model.vcpu_count == 0 {
                1
            } else if model.vcpu_count <= 0xff {
                model.vcpu_count as int
            } else {
                0xff
            })
            &&& r.ebx % 0x1_0000 == 0
            &&& r.ecx == 0x8020_0000
            &&& r.edx == 0x0780_8371
        }),
        features(0x0b, 0, model) == (CpuidResult { eax: 0, ebx: 1, ecx: 0x100, edx: model.apic_id }),
        ({
            let r = features(0x0b, 1, model);
            let count = if model.vcpu_count == 0 {
                1
            } else if model.vcpu_count <= 0xffff {
                model.vcpu_count as int
            } else {
                0xffff
            };
            &&& r.ebx == count
            &&& r.ecx == 0x201
            &&& r.edx == model.apic_id
            &&& pow2(r.eax as nat) >= count
            &&& r.eax > 0 ==> pow2((r.eax - 1) as nat) < count
        }),
        subleaf > 1 ==> features(0x0b, subleaf, model) == (CpuidResult {
            eax: 0,
            ebx: 0,
            ecx: 0,
            edx: model.apic_id,
        }),
{
    let count = clamped(model.vcpu_count as int, 1, 0xffff);
    law_order_is_least(count);
    lemma_order_is_small(count);
}

proof fn lemma_order_is_small(n: int)
    requires
        n >= 1,
    ensures
        0 <= order(n) < n,
    decreases n,
{
    if n > 1 {
        lemma_order_is_small((n + 1) / 2);
    }
}

/// What a guest learns of mBoot: the interface version, the TSC in kHz, the backend, and
/// in four words where its grant window starts and how long it is.
pub proof fn law_interface_leaves_hold_the_domains_values(subleaf: u32, model: CpuModel)
    ensures
        features(0x4000_0001, subleaf, model) == (CpuidResult {
            eax: 1,
            ebx: model.tsc_frequency_khz,
            ecx: model.hypervisor_backend,
            edx: 0,
        }),
        ({
            let r = features(0x4000_0002, subleaf, model);
            &&& r.eax + 0x1_0000_0000 * r.ebx == model.grant_window_start
            &&& r.ecx + 0x1_0000_0000 * r.edx == model.grant_window_size
        }),
{
}

/// System calls, no-execute and long mode are offered, FS and GS bases can be set by the
/// guest, physical addresses have 36 bits and linear ones 48; nothing more is.
pub proof fn law_extended_features_are_fixed(subleaf: u32, model: CpuModel)
    ensures
        features(0x8000_0001, subleaf, model) == (CpuidResult {
            eax: 0,
            ebx: 0,
            ecx: 0,
            edx: 0x2010_0800,
        }),
        features(0x8000_0008, subleaf, model) == (CpuidResult { eax: 0x3024, ebx: 0, ecx: 0, edx: 0 }),
        features(7, subleaf, model) == (CpuidResult {
            eax: 0,
            ebx: if subleaf == 0 {
                1
            } else {
                0
            },
            ecx: 0,
            edx: 0,
        }),
{
}

/// A leaf between those that are named holds nothing either.
pub proof fn law_other_leaves_are_empty(leaf: u32, subleaf: u32, model: CpuModel)
    requires
        1 < leaf < 7 || 7 < leaf < 0x0b || 0x0b < leaf < 0x4000_0000 || 0x8000_0004 < leaf
            < 0x8000_0008,
    ensures
        features(leaf, subleaf, model) == (CpuidResult { eax: 0, ebx: 0, ecx: 0, edx: 0 }),
{
}

} // verus!
