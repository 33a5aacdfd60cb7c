//! The Local APIC timer that slices time between virtual CPUs.

use vstd::prelude::*;

use crate::CpuidResult;

verus! {

pub const VECTOR: u8 = 0xf0;

pub const IA32_APIC_BASE: u32 = 0x1b;

pub const IA32_TSC_DEADLINE: u32 = 0x6e0;

pub const APIC_ENABLE: u64 = 0x800;

pub const X2APIC_ENABLE: u64 = 0x400;

pub const X2APIC_EOI: u32 = 0x80b;

pub const X2APIC_TPR: u32 = 0x808;

pub const X2APIC_SIVR: u32 = 0x80f;

pub const X2APIC_LVT_TIMER: u32 = 0x832;

pub const X2APIC_LVT_LINT0: u32 = 0x835;

pub const X2APIC_LVT_LINT1: u32 = 0x836;

pub const X2APIC_INITIAL_COUNT: u32 = 0x838;

pub const X2APIC_DIVIDE: u32 = 0x83e;

pub const SIVR_ENABLE: u32 = 0x100;

pub const LVT_MASKED: u32 = 0x1_0000;

pub const LVT_PERIODIC: u32 = 0x2_0000;

pub const LVT_TSC_DEADLINE: u32 = 0x4_0000;

pub const DIVIDE_BY_16: u32 = 3;

pub const INITIAL_COUNT: u32 = 1_000_000;

/// The address of the register page, in the APIC base register.
pub const APIC_PAGE: u64 = 0xffff_f000;

/// The CPU has an APIC, in EDX of leaf 1.
pub const FEATURE_APIC: u32 = 0x200;

/// The timer has a TSC deadline mode, in ECX of leaf 1.
pub const FEATURE_TSC_DEADLINE: u32 = 0x100_0000;

/// A write to an APIC register, as an MSR or in its page.
#[derive(Clone, Copy, Debug, PartialEq, Eq, Structural)]
pub enum ApicWrite {
    Msr { register: u32, value: u64 },
    Page { base: u64, offset: u64, word: u32 },
}

/// How the timer is started, and how far apart its deadlines are: zero where the
/// timer repeats by itself.
#[derive(Debug, PartialEq, Eq)]
pub struct TimerPlan {
    pub writes: Vec<ApicWrite>,
    pub interval: u64,
}

/// A register of the APIC, by its number in either mode.
pub open spec fn apic_write(apic_base: u64, register: u32, offset: u64, word: u32) -> ApicWrite {
    if apic_base & X2APIC_ENABLE != 0 {
        ApicWrite::Msr { register, value: word as u64 }
    } else {
        ApicWrite::Page { base: apic_base & APIC_PAGE, offset, word }
    }
}

/// The writes that enable the APIC with only the timer unmasked.
pub open spec fn quiet_writes(apic_base: u64) -> Seq<ApicWrite> {
    seq![
        apic_write(apic_base, X2APIC_SIVR, 0x0f0, SIVR_ENABLE | 0xff),
        apic_write(apic_base, X2APIC_TPR, 0x080, 0),
        apic_write(apic_base, X2APIC_LVT_LINT0, 0x350, LVT_MASKED),
        apic_write(apic_base, X2APIC_LVT_LINT1, 0x360, LVT_MASKED),
    ]
}

/// Ten milliseconds of the TSC, if the timer can count by it.
pub open spec fn deadline_interval(ecx: u32, frequency: Option<u64>) -> u64 {
    match frequency {
        Some(hz) => if ecx & FEATURE_TSC_DEADLINE != 0 {
            hz / 100
        } else {
            0
        },
        None => 0,
    }
}

/// The timer in TSC deadline mode where it can be, else counting by itself.
pub open spec fn timer_writes(apic_base: u64, ecx: u32, frequency: Option<u64>) -> Seq<ApicWrite> {
    quiet_writes(apic_base) + (if deadline_interval(ecx, frequency) != 0 {
        seq![
            apic_write(apic_base, X2APIC_LVT_TIMER, 0x320, LVT_TSC_DEADLINE | VECTOR as u32),
        ]
    } else {
        seq![
            apic_write(apic_base, X2APIC_DIVIDE, 0x3e0, DIVIDE_BY_16),
            apic_write(apic_base, X2APIC_LVT_TIMER, 0x320, LVT_PERIODIC | VECTOR as u32),
            apic_write(apic_base, X2APIC_INITIAL_COUNT, 0x380, INITIAL_COUNT),
        ]
    })
}

fn write_register(apic_base: u64, register: u32, offset: u64, word: u32) -> (r: ApicWrite)
    ensures
        r == apic_write(apic_base, register, offset, word),
{
    if apic_base & X2APIC_ENABLE != 0 {
        ApicWrite::Msr { register, value: word as u64 }
    } else {
        ApicWrite::Page { base: apic_base & APIC_PAGE, offset, word }
    }
}

/// Starts a Local APIC timer for vCPU time slicing, from the APIC base register,
/// leaf 1 of the host's CPUID and the TSC frequency. Nothing is started where the
/// APIC is disabled or missing.
///
/// A calibrated TSC deadline supplies 10 ms slices when the CPU reports enough
/// frequency information. Older CPUs use a conservative periodic APIC count.
pub fn initialize(
    apic_base: u64,
    features: CpuidResult,
    frequency: Option<u64>,
) -> (r: Option<TimerPlan>)
    ensures
        if apic_base & APIC_ENABLE == 0 || (apic_base & X2APIC_ENABLE == 0 && features.edx
            & FEATURE_APIC == 0) {
            r is None
        } else {
            r matches Some(plan) && plan.writes@ == timer_writes(
                apic_base,
                features.ecx,
                frequency,
            ) && plan.interval == deadline_interval(features.ecx, frequency)
        },
{
    if apic_base & APIC_ENABLE == 0 {
        return None;
    }
    if apic_base & X2APIC_ENABLE == 0 && features.edx & FEATURE_APIC == 0 {
        return None;
    }
    let mut writes: Vec<ApicWrite> = Vec::new();
    writes.push(write_register(apic_base, X2APIC_SIVR, 0x0f0, SIVR_ENABLE | 0xff));
    writes.push(write_register(apic_base, X2APIC_TPR, 0x080, 0));
    writes.push(write_register(apic_base, X2APIC_LVT_LINT0, 0x350, LVT_MASKED));
    writes.push(write_register(apic_base, X2APIC_LVT_LINT1, 0x360, LVT_MASKED));
    let interval: u64 = match frequency {
        Some(hz) => if features.ecx & FEATURE_TSC_DEADLINE != 0 {
            hz / 100
        } else {
            0
        },
        None => 0,
    };
    if interval != 0 {
        writes.push(
            write_register(apic_base, X2APIC_LVT_TIMER, 0x320, LVT_TSC_DEADLINE | VECTOR as u32),
        );
    } else {
        writes.push(write_register(apic_base, X2APIC_DIVIDE, 0x3e0, DIVIDE_BY_16));
        writes.push(
            write_register(apic_base, X2APIC_LVT_TIMER, 0x320, LVT_PERIODIC | VECTOR as u32),
        );
        writes.push(write_register(apic_base, X2APIC_INITIAL_COUNT, 0x380, INITIAL_COUNT));
    }
    assert(writes@ =~= timer_writes(apic_base, features.ecx, frequency));
    Some(TimerPlan { writes, interval })
}

/// The write that ends an interrupt.
pub fn acknowledge(apic_base: u64) -> (r: ApicWrite)
    ensures
        r == apic_write(apic_base, X2APIC_EOI, 0x0b0, 0),
{
    write_register(apic_base, X2APIC_EOI, 0x0b0, 0)
}

/// Arms a fresh deadline immediately before entering a guest. This prevents a
/// slow host-side scheduling pass from consuming the next guest's whole slice.
pub fn prepare_entry(interval: u64, now: u64) -> (r: Option<u64>)
    ensures
        r == (if interval == 0 {
            None
        } else {
            Some(((now + interval) % 0x1_0000_0000_0000_0000) as u64)
        }),
{
    if interval == 0 {
        None
    } else {
        Some(now.wrapping_add(interval))
    }
}

/// The frequency of the TSC, from the highest leaf of the host's CPUID and leaves
/// 15h and 16h.
pub open spec fn tsc_frequency(highest: u32, ratio: CpuidResult, base: CpuidResult) -> Option<u64> {
    if highest >= 0x15 && ratio.eax != 0 && ratio.ebx != 0 && ratio.ecx != 0 {
        Some(((ratio.ecx as int * ratio.ebx as int) / ratio.eax as int) as u64)
    } else if highest >= 0x16 && base.eax % 0x1_0000 != 0 {
        Some((base.eax % 0x1_0000 * 1_000_000) as u64)
    } else {
        None
    }
}

pub fn tsc_frequency_hz(highest: u32, ratio: CpuidResult, base: CpuidResult) -> (r: Option<u64>)
    ensures
        r == tsc_frequency(highest, ratio, base),
{
    if highest >= 0x15 {
        if ratio.eax != 0 && ratio.ebx != 0 && ratio.ecx != 0 {
            let a: u64 = ratio.ecx as u64;
            let b: u64 = ratio.ebx as u64;
            assert(0 <= a * b <= 0xffff_fffe_0000_0001) by (nonlinear_arith)
                requires
                    0 <= a <= 0xffff_ffff,
                    0 <= b <= 0xffff_ffff,
            ;
            return Some(a * b / ratio.eax as u64);
        }
    }
    if highest >= 0x16 {
        let megahertz: u32 = base.eax % 0x1_0000;
        if megahertz != 0 {
            return Some(megahertz as u64 * 1_000_000);
        }
    }
    None
}

/// What the last write of an APIC register left there, if there was one. A register has
/// its offset in the page, and as an MSR the number 0x800 and a sixteenth of the offset.
pub open spec fn register_held(writes: Seq<ApicWrite>, n: int, offset: u64) -> Option<u64>
    decreases n,
{
    if n <= 0 {
        None
    } else {
        match writes[n - 1] {
            ApicWrite::Msr { register, value } if register == 0x800 + offset / 16 => Some(value),
            ApicWrite::Page { base, offset: at, word } if at == offset => Some(word as u64),
            _ => register_held(writes, n - 1, offset),
        }
    }
}

/// Every write goes by MSR where the APIC is in its extended mode (bit 10 of its base
/// register), and to the page that the base register names where it is not.
pub proof fn law_writes_go_where_the_apic_listens(
    apic_base: u64,
    ecx: u32,
    frequency: Option<u64>,
    i: int,
)
    requires
        0 <= i < timer_writes(apic_base, ecx, frequency).len(),
    ensures
        apic_base & 0x400 != 0 ==> timer_writes(apic_base, ecx, frequency)[i] is Msr,
        apic_base & 0x400 == 0 ==> (timer_writes(apic_base, ecx, frequency)[i] matches
            ApicWrite::Page { base, .. } && base == apic_base & 0xffff_f000),
{
}

/// After the writes the APIC is enabled with 0xff as its spurious vector, takes every
/// priority, and both its pins are masked. Its timer raises vector 0xf0: by TSC deadline
/// (bit 18) where the CPU offers it (bit 24 of ECX) and the TSC's frequency gives an
/// interval, else periodically (bit 17) with a million counts of sixteen cycles each.
pub proof fn law_timer_is_programmed(apic_base: u64, ecx: u32, frequency: Option<u64>)
    ensures
        ({
            let writes = timer_writes(apic_base, ecx, frequency);
            let n = writes.len() as int;
            let by_deadline = frequency is Some && ecx & 0x100_0000 != 0 && frequency->0 >= 100;
            &&& register_held(writes, n, 0x0f0) == Some(0x1ffu64)
            &&& register_held(writes, n, 0x080) == Some(0u64)
            &&& register_held(writes, n, 0x350) == Some(0x1_0000u64)
            &&& register_held(writes, n, 0x360) == Some(0x1_0000u64)
            &&& register_held(writes, n, 0x320) == Some(if by_deadline {
                0x4_00f0u64
            } else {
                0x2_00f0u64
            })
            &&& register_held(writes, n, 0x3e0) == (if by_deadline {
                None
            } else {
                Some(3u64)
            })
            &&& register_held(writes, n, 0x380) == (if by_deadline {
                None
            } else {
                Some(1_000_000u64)
            })
            &&& !by_deadline ==> register_held(writes, n - 1, 0x320) == Some(0x2_00f0u64)
                && register_held(writes, n - 1, 0x3e0) == Some(3u64)
        }),
        deadline_interval(ecx, frequency) == (if frequency is Some && ecx & 0x100_0000 != 0 {
            frequency->0 / 100
        } else {
            0
        }),
{
    assert(0x100u32 | 0xff == 0x1ff && 0x4_0000u32 | 0xf0 == 0x4_00f0 && 0x2_0000u32 | 0xf0
        == 0x2_00f0) by (bit_vector);
    reveal_with_fuel(register_held, 9);
}

/// The frequency of the TSC is the crystal's (ECX of leaf 15h) times the ratio EBX to EAX
/// of that leaf, rounded down; without all three it is the base frequency of leaf 16h, in
/// MHz in its low sixteen bits; a leaf above the highest is not looked at.
pub proof fn law_frequency_is_crystal_times_ratio(
    highest: u32,
    ratio: CpuidResult,
    base: CpuidResult,
)
    ensures
        ({
            let full = highest >= 0x15 && ratio.eax != 0 && ratio.ebx != 0 && ratio.ecx != 0;
            &&& full ==> (tsc_frequency(highest, ratio, base) matches Some(hz) && hz * ratio.eax
                <= ratio.ecx * ratio.ebx < (hz + 1) * ratio.eax)
            &&& !full && highest >= 0x16 && base.eax % 0x1_0000 != 0 ==> tsc_frequency(
                highest,
                ratio,
                base,
            ) == Some((1_000_000 * (base.eax % 0x1_0000)) as u64)
            &&& !full && (highest < 0x16 || base.eax % 0x1_0000 == 0) ==> tsc_frequency(
                highest,
                ratio,
                base,
            ) is None
        }),
{
    let (c, b, a) = (ratio.ecx as int, ratio.ebx as int, ratio.eax as int);
    if a != 0 {
        assert(0 <= c * b <= 0xffff_fffe_0000_0001 && c * b / a * a <= c * b && c * b < (c * b / a
            + 1) * a && 0 <= c * b / a <= c * b) by (nonlinear_arith)
            requires
                0 <= c <= 0xffff_ffff,
                0 <= b <= 0xffff_ffff,
                0 < a <= 0xffff_ffff,
        ;
    }
}

} // verus!
