//! What the fields of a VMCS hold once it has been prepared.

use vstd::prelude::*;

use super::{
    activity_writes, base_writes, control_register_writes, control_writes, controls_for,
    data_segment_writes, execution_writes, exit_of, guest_cr0, guest_cr4, host_register_writes,
    host_selector_writes, limit_writes, msr_list_words, msr_list_writes, pat_writes, requested_cr0,
    requested_cr4, selector_writes, start_context, system_segment_writes, vm_control, vmcs_steps,
    ControlCapabilities, ExitFields, FixedBits, HostState, VmControls, VmcsAction, VmxRunContext,
    GUEST_MSR_LIST,
};
use crate::{Error, GuestBootMode, GuestConfig, VmExitReason};

verus! {

/// What a field holds after the first `n` steps, if one of them wrote it.
pub open spec fn held(steps: Seq<VmcsAction>, n: int, field: u64) -> Option<u64>
    decreases n,
{
    if n <= 0 {
        None
    } else {
        match steps[n - 1] {
            VmcsAction::Write { field: written, value } if written == field => Some(value),
            _ => held(steps, n - 1, field),
        }
    }
}

/// Whether a field holds a value after all the steps.
pub open spec fn holds(steps: Seq<VmcsAction>, field: u64, value: u64) -> bool {
    held(steps, steps.len() as int, field) == Some(value)
}

/// The steps of preparing a VMCS.
pub open spec fn steps(
    config: GuestConfig,
    caps: ControlCapabilities,
    fixed: FixedBits,
    host: HostState,
) -> Seq<VmcsAction> {
    vmcs_steps(config, caps, fixed, host).0
}

/// Whether preparing a VMCS succeeds.
pub open spec fn prepared(
    config: GuestConfig,
    caps: ControlCapabilities,
    fixed: FixedBits,
    host: HostState,
) -> bool {
    vmcs_steps(config, caps, fixed, host).1 is Ok
}

spec fn later(last: Option<u64>, first: Option<u64>) -> Option<u64> {
    match last {
        Some(value) => Some(value),
        None => first,
    }
}

spec fn held_in(steps: Seq<VmcsAction>, field: u64) -> Option<u64> {
    held(steps, steps.len() as int, field)
}

proof fn lemma_held_add(a: Seq<VmcsAction>, b: Seq<VmcsAction>, n: int, field: u64)
    requires
        0 <= n <= b.len(),
    ensures
        held(a + b, a.len() + n, field) == later(held(b, n, field), held_in(a, field)),
    decreases n,
{
    if n > 0 {
        lemma_held_add(a, b, n - 1, field);
        assert((a + b)[a.len() + n - 1] == b[n - 1]);
    } else {
        lemma_held_prefix(a, b, a.len() as int, field);
    }
}

proof fn lemma_held_prefix(a: Seq<VmcsAction>, b: Seq<VmcsAction>, n: int, field: u64)
    requires
        0 <= n <= a.len(),
    ensures
        held(a + b, n, field) == held(a, n, field),
    decreases n,
{
    if n > 0 {
        lemma_held_prefix(a, b, n - 1, field);
        assert((a + b)[n - 1] == a[n - 1]);
    }
}

proof fn lemma_joined(a: Seq<VmcsAction>, b: Seq<VmcsAction>, field: u64)
    ensures
        held_in(a + b, field) == later(held_in(b, field), held_in(a, field)),
{
    lemma_held_add(a, b, b.len() as int, field);
}

spec fn is_pvh(config: GuestConfig) -> bool {
    config.boot_mode == GuestBootMode::LinuxPvh32
}

spec fn registers_of(config: GuestConfig, fixed: FixedBits) -> Seq<VmcsAction> {
    let pvh = is_pvh(config);
    control_register_writes(
        config,
        pvh,
        guest_cr0(pvh, fixed),
        guest_cr4(pvh, fixed),
        requested_cr0(pvh),
        requested_cr4(pvh),
        fixed,
    )
}

spec fn pat_of(config: GuestConfig, fixed: FixedBits) -> Seq<VmcsAction> {
    if is_pvh(config) {
        pat_writes(fixed.pat)
    } else {
        Seq::empty()
    }
}

spec fn lists_of(config: GuestConfig) -> Seq<VmcsAction> {
    msr_list_writes(
        config.msr_state_page,
        (config.msr_state_page + 96) as u64,
        config.nested_root,
    )
}

spec fn controls_of(config: GuestConfig, caps: ControlCapabilities) -> Seq<VmcsAction> {
    control_writes(controls_for(config.boot_mode, caps)->Ok_0) + seq![
        VmcsAction::Write { field: 0x2004, value: config.msr_permission_map },
    ] + seq![VmcsAction::StoreMsrLists { page: config.msr_state_page }]
}

spec fn segments_of(config: GuestConfig) -> Seq<VmcsAction> {
    selector_writes() + limit_writes() + data_segment_writes() + system_segment_writes(
        is_pvh(config),
    ) + base_writes()
}

spec fn selector_field(field: u64) -> Option<u64> {
    if field == 0x800 {
        Some(0x10)
    } else if field == 0x802 {
        Some(0x08)
    } else if field == 0x804 || field == 0x806 || field == 0x808 || field == 0x80a {
        Some(0x10)
    } else if field == 0x80c {
        Some(0)
    } else if field == 0x80e {
        Some(0x18)
    } else {
        None
    }
}

proof fn lemma_selector(field: u64)
    ensures
        held_in(selector_writes(), field) == selector_field(field),
{
    reveal_with_fuel(held, 10);
}

spec fn limit_field(field: u64) -> Option<u64> {
    if field == 0x4800 || field == 0x4802 || field == 0x4804 || field == 0x4806 || field == 0x4808 || field == 0x480a || field == 0x480c {
        Some(0xffff_ffff)
    } else {
        None
    }
}

proof fn lemma_limit(field: u64)
    ensures
        held_in(limit_writes(), field) == limit_field(field),
{
    reveal_with_fuel(held, 9);
}

spec fn data_segment_field(field: u64) -> Option<u64> {
    if field == 0x4814 || field == 0x4818 || field == 0x481a || field == 0x481c || field == 0x481e {
        Some(0xc093)
    } else {
        None
    }
}

proof fn lemma_data_segment(field: u64)
    ensures
        held_in(data_segment_writes(), field) == data_segment_field(field),
{
    reveal_with_fuel(held, 7);
}

spec fn system_segment_field(pvh: bool, field: u64) -> Option<u64> {
    if field == 0x4816 {
        Some(if pvh {
            0xc09b
        } else {
            0xa09b
        })
    } else if field == 0x4820 {
        Some(0x1_0000)
    } else if field == 0x4822 {
        Some(0x8b)
    } else if field == 0x480e {
        Some(0x67)
    } else if field == 0x4810 || field == 0x4812 {
        Some(0)
    } else {
        None
    }
}

proof fn lemma_system_segment(pvh: bool, field: u64)
    ensures
        held_in(system_segment_writes(pvh), field) == system_segment_field(pvh, field),
{
    reveal_with_fuel(held, 8);
}

spec fn base_field(field: u64) -> Option<u64> {
    if field == 0x6806 || field == 0x6808 || field == 0x680a || field == 0x680c || field == 0x680e || field == 0x6810 || field == 0x6812 || field == 0x6814 || field == 0x6816 || field == 0x6818 || field == 0x6824 || field == 0x6826 {
        Some(0)
    } else {
        None
    }
}

proof fn lemma_base(field: u64)
    ensures
        held_in(base_writes(), field) == base_field(field),
{
    reveal_with_fuel(held, 14);
}

spec fn register_field(config: GuestConfig, fixed: FixedBits, field: u64) -> Option<u64> {
    if field == 0x6800 {
        Some(guest_cr0(is_pvh(config), fixed))
    } else if field == 0x6802 {
        Some(if is_pvh(config) {
            0
        } else {
            config.page_table_root
        })
    } else if field == 0x6804 {
        Some(guest_cr4(is_pvh(config), fixed))
    } else if field == 0x6000 {
        Some(fixed.cr0_fixed0 & !0x8000_0001u64)
    } else if field == 0x6002 {
        Some(fixed.cr4_fixed0 & !0u64)
    } else if field == 0x6004 {
        Some(requested_cr0(is_pvh(config)))
    } else if field == 0x6006 {
        Some(requested_cr4(is_pvh(config)))
    } else {
        None
    }
}

proof fn lemma_register(config: GuestConfig, fixed: FixedBits, field: u64)
    ensures
        held_in(registers_of(config, fixed), field) == register_field(config, fixed, field),
{
    reveal_with_fuel(held, 9);
}

spec fn execution_field(config: GuestConfig, field: u64) -> Option<u64> {
    if field == 0x681a {
        Some(0x400)
    } else if field == 0x681c {
        Some(config.stack)
    } else if field == 0x681e {
        Some(config.entry)
    } else if field == 0x6820 {
        Some(2)
    } else if field == 0x2802 {
        Some(0)
    } else if field == 0x2806 {
        Some(if is_pvh(config) {
            0
        } else {
            0xd00
        })
    } else {
        None
    }
}

proof fn lemma_execution(config: GuestConfig, field: u64)
    ensures
        held_in(execution_writes(config, is_pvh(config)), field) == execution_field(config, field),
{
    reveal_with_fuel(held, 8);
}

spec fn activity_field(field: u64) -> Option<u64> {
    if field == 0x2800 {
        Some(0xffff_ffff_ffff_ffff)
    } else if field == 0x4824 || field == 0x4826 || field == 0x482a {
        Some(0)
    } else {
        None
    }
}

proof fn lemma_activity(field: u64)
    ensures
        held_in(activity_writes(), field) == activity_field(field),
{
    reveal_with_fuel(held, 6);
}

spec fn host_selector_field(h: HostState, field: u64) -> Option<u64> {
    if field == 0xc00 {
        Some((h.es & !7u16) as u64)
    } else if field == 0xc02 {
        Some((h.cs & !7u16) as u64)
    } else if field == 0xc04 {
        Some((h.ss & !7u16) as u64)
    } else if field == 0xc06 {
        Some((h.ds & !7u16) as u64)
    } else if field == 0xc08 {
        Some((h.fs & !7u16) as u64)
    } else if field == 0xc0a {
        Some((h.gs & !7u16) as u64)
    } else if field == 0xc0c {
        Some((h.tr & !7u16) as u64)
    } else {
        None
    }
}

proof fn lemma_host_selector(h: HostState, field: u64)
    ensures
        held_in(host_selector_writes(h), field) == host_selector_field(h, field),
{
    reveal_with_fuel(held, 9);
}

spec fn host_register_field(h: HostState, field: u64) -> Option<u64> {
    if field == 0x6c00 {
        Some(h.cr0)
    } else if field == 0x6c02 {
        Some(h.cr3)
    } else if field == 0x6c04 {
        Some(h.cr4)
    } else if field == 0x6c06 {
        Some(h.fs_base)
    } else if field == 0x6c08 {
        Some(h.gs_base)
    } else if field == 0x6c0a {
        Some(h.tr_base)
    } else if field == 0x6c0c {
        Some(h.gdt_base)
    } else if field == 0x6c0e {
        Some(h.idt_base)
    } else if field == 0x4c00 {
        Some(h.sysenter_cs & 0xffff)
    } else if field == 0x6c10 {
        Some(h.sysenter_esp)
    } else if field == 0x6c12 {
        Some(h.sysenter_eip)
    } else if field == 0x2c02 {
        Some(h.efer)
    } else if field == 0x2c00 {
        Some(h.pat)
    } else {
        None
    }
}

proof fn lemma_host_register(h: HostState, field: u64)
    ensures
        held_in(host_register_writes(h), field) == host_register_field(h, field),
{
    reveal_with_fuel(held, 15);
}

spec fn list_field(config: GuestConfig, field: u64) -> Option<u64> {
    if field == 0x2006 || field == 0x200a {
        Some(config.msr_state_page)
    } else if field == 0x2008 {
        Some((config.msr_state_page + 96) as u64)
    } else if field == 0x201a {
        Some(config.nested_root)
    } else {
        None
    }
}

proof fn lemma_list(config: GuestConfig, field: u64)
    ensures
        held_in(lists_of(config), field) == list_field(config, field),
{
    reveal_with_fuel(held, 6);
}

spec fn control_field(c: VmControls, field: u64) -> Option<u64> {
    if field == 0x4000 {
        Some(c.pin)
    } else if field == 0x4002 {
        Some(c.primary)
    } else if field == 0x401e {
        Some(c.secondary)
    } else if field == 0x400c {
        Some(c.exit)
    } else if field == 0x4012 {
        Some(c.entry)
    } else if field == 0x4004 || field == 0x4006 || field == 0x4008 || field == 0x400a {
        Some(0)
    } else if field == 0x400e || field == 0x4010 || field == 0x4014 {
        Some(6)
    } else if field == 0x4016 {
        Some(0)
    } else {
        None
    }
}

proof fn lemma_control(c: VmControls, field: u64)
    ensures
        held_in(control_writes(c), field) == control_field(c, field),
{
    reveal_with_fuel(held, 15);
}

/// What a field of a prepared VMCS holds.
spec fn field_of(
    config: GuestConfig,
    c: VmControls,
    fixed: FixedBits,
    host: HostState,
    field: u64,
) -> Option<u64> {
    let host_part = later(host_register_field(host, field), host_selector_field(host, field));
    let pat_part = if is_pvh(config) && field == 0x2804 {
        Some(fixed.pat)
    } else {
        None
    };
    let state_part = later(
        activity_field(field),
        later(pat_part, later(execution_field(config, field), register_field(config, fixed, field))),
    );
    let segment_part = later(
        base_field(field),
        later(
            system_segment_field(is_pvh(config), field),
            later(data_segment_field(field), later(limit_field(field), selector_field(field))),
        ),
    );
    let bitmap_part = if field == 0x2004 {
        Some(config.msr_permission_map)
    } else {
        None
    };
    later(
        host_part,
        later(
            state_part,
            later(
                segment_part,
                later(list_field(config, field), later(bitmap_part, control_field(c, field))),
            ),
        ),
    )
}

/// A field holds what the last part of the program that wrote it left there.
#[verifier::spinoff_prover]
proof fn lemma_field(
    config: GuestConfig,
    caps: ControlCapabilities,
    fixed: FixedBits,
    host: HostState,
    field: u64,
)
    requires
        prepared(config, caps, fixed, host),
    ensures
        held_in(steps(config, caps, fixed, host), field) == field_of(
            config,
            controls_for(config.boot_mode, caps)->Ok_0,
            fixed,
            host,
            field,
        ),
{
    let pvh = is_pvh(config);
    let (a, b, c, d, e) = (
        selector_writes(),
        limit_writes(),
        data_segment_writes(),
        system_segment_writes(pvh),
        base_writes(),
    );
    lemma_joined(a, b, field);
    lemma_joined(a + b, c, field);
    lemma_joined(a + b + c, d, field);
    lemma_joined(a + b + c + d, e, field);
    lemma_selector(field);
    lemma_limit(field);
    lemma_data_segment(field);
    lemma_system_segment(pvh, field);
    lemma_base(field);
    let segments = segments_of(config);
    let (f, g, h, i) = (
        registers_of(config, fixed),
        execution_writes(config, pvh),
        pat_of(config, fixed),
        activity_writes(),
    );
    lemma_joined(segments, f, field);
    lemma_joined(segments + f, g, field);
    lemma_joined(segments + f + g, h, field);
    lemma_joined(segments + f + g + h, i, field);
    lemma_register(config, fixed, field);
    lemma_execution(config, field);
    lemma_pat(config, fixed, field);
    lemma_activity(field);
    let state = segments + f + g + h + i;
    let (j, k) = (host_selector_writes(host), host_register_writes(host));
    lemma_joined(j, k, field);
    lemma_host_selector(host, field);
    lemma_host_register(host, field);
    let (l, m) = (controls_of(config, caps), lists_of(config));
    lemma_controls_of(config, caps, field);
    lemma_list(config, field);
    lemma_joined(l, m, field);
    lemma_joined(l + m, state, field);
    lemma_joined(l + m + state, j + k, field);
    lemma_steps(config, caps, fixed, host);
}

proof fn lemma_steps(
    config: GuestConfig,
    caps: ControlCapabilities,
    fixed: FixedBits,
    host: HostState,
)
    requires
        prepared(config, caps, fixed, host),
    ensures
        steps(config, caps, fixed, host) == controls_of(config, caps) + lists_of(config) + (
        segments_of(config) + registers_of(config, fixed) + execution_writes(config, is_pvh(config))
            + pat_of(config, fixed) + activity_writes()) + (host_selector_writes(host)
            + host_register_writes(host)),
{
    assert(steps(config, caps, fixed, host) =~= controls_of(config, caps) + lists_of(config) + (
    segments_of(config) + registers_of(config, fixed) + execution_writes(config, is_pvh(config))
        + pat_of(config, fixed) + activity_writes()) + (host_selector_writes(host)
        + host_register_writes(host)));
}

proof fn lemma_pat(config: GuestConfig, fixed: FixedBits, field: u64)
    ensures
        held_in(pat_of(config, fixed), field) == (if is_pvh(config) && field == 0x2804 {
            Some(fixed.pat)
        } else {
            None
        }),
{
    reveal_with_fuel(held, 3);
}

proof fn lemma_controls_of(config: GuestConfig, caps: ControlCapabilities, field: u64)
    ensures
        held_in(controls_of(config, caps), field) == later(
            if field == 0x2004 {
                Some(config.msr_permission_map)
            } else {
                None
            },
            control_field(controls_for(config.boot_mode, caps)->Ok_0, field),
        ),
{
    let c = controls_for(config.boot_mode, caps)->Ok_0;
    let bitmap = seq![VmcsAction::Write { field: 0x2004, value: config.msr_permission_map }];
    let lists = seq![VmcsAction::StoreMsrLists { page: config.msr_state_page }];
    lemma_control(c, field);
    lemma_joined(control_writes(c), bitmap, field);
    lemma_joined(control_writes(c) + bitmap, lists, field);
    assert(held_in(bitmap, field) == (if field == 0x2004 {
        Some(config.msr_permission_map)
    } else {
        None
    }) && held_in(lists, field) == None::<u64>) by {
        reveal_with_fuel(held, 3);
    }
}

/// A prepared VMCS starts the guest where its configuration says: the instruction
/// pointer (0x681e) is its entry, the stack pointer (0x681c) its stack, the page table
/// root (0x6802) its own for a 64-bit start and none for one without paging, and the
/// EPT pointer (0x201a) its nested root. The flags hold nothing but their fixed bit, so
/// that no interrupt comes before the guest asks for one.
pub proof fn law_guest_starts_at_its_entry(
    config: GuestConfig,
    caps: ControlCapabilities,
    fixed: FixedBits,
    host: HostState,
)
    requires
        prepared(config, caps, fixed, host),
    ensures
        holds(steps(config, caps, fixed, host), 0x681e, config.entry),
        holds(steps(config, caps, fixed, host), 0x681c, config.stack),
        holds(steps(config, caps, fixed, host), 0x6802, if config.boot_mode == GuestBootMode::LinuxPvh32 {
                0
            } else {
                config.page_table_root
            }),
        holds(steps(config, caps, fixed, host), 0x201a, config.nested_root),
        holds(steps(config, caps, fixed, host), 0x6820, 2),
        holds(steps(config, caps, fixed, host), 0x681a, 0x400),
        holds(steps(config, caps, fixed, host), 0x2802, 0),
{
    lemma_field(config, caps, fixed, host, 0x681e);
    lemma_field(config, caps, fixed, host, 0x681c);
    lemma_field(config, caps, fixed, host, 0x6802);
    lemma_field(config, caps, fixed, host, 0x201a);
    lemma_field(config, caps, fixed, host, 0x6820);
    lemma_field(config, caps, fixed, host, 0x681a);
    lemma_field(config, caps, fixed, host, 0x2802);
}

/// A 64-bit start runs with protection, paging and long mode on and in a 64-bit code
/// segment; one that boots by itself with paging and long mode off and in a 32-bit code
/// segment, on the host's page attributes. The guest reads of CR0 and CR4 what it asked
/// for, and the bits that VMX fixes stay with the host, but for protection and paging.
pub proof fn law_guest_starts_in_the_mode_of_its_boot(
    config: GuestConfig,
    caps: ControlCapabilities,
    fixed: FixedBits,
    host: HostState,
)
    requires
        prepared(config, caps, fixed, host),
    ensures
        holds(steps(config, caps, fixed, host), 0x2806, if config.boot_mode == GuestBootMode::LinuxPvh32 {
                0
            } else {
                0xd00
            }),
        holds(steps(config, caps, fixed, host), 0x4816, if config.boot_mode == GuestBootMode::LinuxPvh32 {
                0xc09b
            } else {
                0xa09b
            }),
        holds(steps(config, caps, fixed, host), 0x6004, if config.boot_mode == GuestBootMode::LinuxPvh32 {
                0x11
            } else {
                0x8001_0033
            }),
        holds(steps(config, caps, fixed, host), 0x6006, if config.boot_mode == GuestBootMode::LinuxPvh32 {
                0
            } else {
                0x20
            }),
        holds(steps(config, caps, fixed, host), 0x6000, fixed.cr0_fixed0 & 0xffff_ffff_7fff_fffe),
        holds(steps(config, caps, fixed, host), 0x6002, fixed.cr4_fixed0),
        holds(steps(config, caps, fixed, host), 0x6804, (if config.boot_mode == GuestBootMode::LinuxPvh32 {
                0u64
            } else {
                0x20
            } | fixed.cr4_fixed0) & fixed.cr4_fixed1),
        holds(steps(config, caps, fixed, host), 0x6800, if config.boot_mode == GuestBootMode::LinuxPvh32 {
                ((0x11u64 | fixed.cr0_fixed0) & fixed.cr0_fixed1 & 0xffff_ffff_7fff_ffff) | 1
            } else {
                (0x8001_0033u64 | fixed.cr0_fixed0) & fixed.cr0_fixed1
            }),
{
    let (x, y) = (fixed.cr0_fixed0, fixed.cr4_fixed0);
    assert(!0x8000_0001u64 == 0xffff_ffff_7fff_fffe && !0x8000_0000u64 == 0xffff_ffff_7fff_ffff && y
        & !0u64 == y) by (bit_vector);
    lemma_field(config, caps, fixed, host, 0x2806);
    lemma_field(config, caps, fixed, host, 0x4816);
    lemma_field(config, caps, fixed, host, 0x6004);
    lemma_field(config, caps, fixed, host, 0x6006);
    lemma_field(config, caps, fixed, host, 0x6000);
    lemma_field(config, caps, fixed, host, 0x6002);
    lemma_field(config, caps, fixed, host, 0x6804);
    lemma_field(config, caps, fixed, host, 0x6800);
}

/// A guest that boots by itself gets the page attributes (0x2804) of the host.
pub proof fn law_guest_page_attributes_are_the_hosts(
    config: GuestConfig,
    caps: ControlCapabilities,
    fixed: FixedBits,
    host: HostState,
)
    requires
        prepared(config, caps, fixed, host),
        config.boot_mode == GuestBootMode::LinuxPvh32,
    ensures
        holds(steps(config, caps, fixed, host), 0x2804, fixed.pat),
{
    lemma_field(config, caps, fixed, host, 0x2804);
}

/// Every segment of a guest starts flat: base zero and limit four gigabytes, the data
/// segments present and writable.
pub proof fn law_guest_segments_are_flat(
    config: GuestConfig,
    caps: ControlCapabilities,
    fixed: FixedBits,
    host: HostState,
)
    requires
        prepared(config, caps, fixed, host),
    ensures
        holds(steps(config, caps, fixed, host), 0x4800, 0xffff_ffff),
        holds(steps(config, caps, fixed, host), 0x4802, 0xffff_ffff),
        holds(steps(config, caps, fixed, host), 0x4804, 0xffff_ffff),
        holds(steps(config, caps, fixed, host), 0x4806, 0xffff_ffff),
        holds(steps(config, caps, fixed, host), 0x4808, 0xffff_ffff),
        holds(steps(config, caps, fixed, host), 0x480a, 0xffff_ffff),
        holds(steps(config, caps, fixed, host), 0x6806, 0),
        holds(steps(config, caps, fixed, host), 0x6808, 0),
        holds(steps(config, caps, fixed, host), 0x680a, 0),
        holds(steps(config, caps, fixed, host), 0x680c, 0),
        holds(steps(config, caps, fixed, host), 0x680e, 0),
        holds(steps(config, caps, fixed, host), 0x6810, 0),
        holds(steps(config, caps, fixed, host), 0x4814, 0xc093),
        holds(steps(config, caps, fixed, host), 0x4818, 0xc093),
        holds(steps(config, caps, fixed, host), 0x481a, 0xc093),
        holds(steps(config, caps, fixed, host), 0x481c, 0xc093),
        holds(steps(config, caps, fixed, host), 0x481e, 0xc093),
{
    lemma_field(config, caps, fixed, host, 0x4800);
    lemma_field(config, caps, fixed, host, 0x4802);
    lemma_field(config, caps, fixed, host, 0x4804);
    lemma_field(config, caps, fixed, host, 0x4806);
    lemma_field(config, caps, fixed, host, 0x4808);
    lemma_field(config, caps, fixed, host, 0x480a);
    lemma_field(config, caps, fixed, host, 0x6806);
    lemma_field(config, caps, fixed, host, 0x6808);
    lemma_field(config, caps, fixed, host, 0x680a);
    lemma_field(config, caps, fixed, host, 0x680c);
    lemma_field(config, caps, fixed, host, 0x680e);
    lemma_field(config, caps, fixed, host, 0x6810);
    lemma_field(config, caps, fixed, host, 0x4814);
    lemma_field(config, caps, fixed, host, 0x4818);
    lemma_field(config, caps, fixed, host, 0x481a);
    lemma_field(config, caps, fixed, host, 0x481c);
    lemma_field(config, caps, fixed, host, 0x481e);
}

/// The selectors name code at 8, data at 16 and the task at 24; the local table is
/// unusable, the task is a busy one of 104 bytes, and the guest starts with empty
/// descriptor tables and no system-call entry.
pub proof fn law_guest_selectors_and_tables(
    config: GuestConfig,
    caps: ControlCapabilities,
    fixed: FixedBits,
    host: HostState,
)
    requires
        prepared(config, caps, fixed, host),
    ensures
        holds(steps(config, caps, fixed, host), 0x800, 0x10),
        holds(steps(config, caps, fixed, host), 0x802, 0x08),
        holds(steps(config, caps, fixed, host), 0x804, 0x10),
        holds(steps(config, caps, fixed, host), 0x806, 0x10),
        holds(steps(config, caps, fixed, host), 0x808, 0x10),
        holds(steps(config, caps, fixed, host), 0x80a, 0x10),
        holds(steps(config, caps, fixed, host), 0x80c, 0),
        holds(steps(config, caps, fixed, host), 0x80e, 0x18),
        holds(steps(config, caps, fixed, host), 0x480c, 0xffff_ffff),
        holds(steps(config, caps, fixed, host), 0x480e, 0x67),
        holds(steps(config, caps, fixed, host), 0x4810, 0),
        holds(steps(config, caps, fixed, host), 0x4812, 0),
        holds(steps(config, caps, fixed, host), 0x4820, 0x1_0000),
        holds(steps(config, caps, fixed, host), 0x4822, 0x8b),
        holds(steps(config, caps, fixed, host), 0x6812, 0),
        holds(steps(config, caps, fixed, host), 0x6814, 0),
        holds(steps(config, caps, fixed, host), 0x6816, 0),
        holds(steps(config, caps, fixed, host), 0x6818, 0),
        holds(steps(config, caps, fixed, host), 0x6824, 0),
        holds(steps(config, caps, fixed, host), 0x6826, 0),
        holds(steps(config, caps, fixed, host), 0x482a, 0),
{
    lemma_field(config, caps, fixed, host, 0x800);
    lemma_field(config, caps, fixed, host, 0x802);
    lemma_field(config, caps, fixed, host, 0x804);
    lemma_field(config, caps, fixed, host, 0x806);
    lemma_field(config, caps, fixed, host, 0x808);
    lemma_field(config, caps, fixed, host, 0x80a);
    lemma_field(config, caps, fixed, host, 0x80c);
    lemma_field(config, caps, fixed, host, 0x80e);
    lemma_field(config, caps, fixed, host, 0x480c);
    lemma_field(config, caps, fixed, host, 0x480e);
    lemma_field(config, caps, fixed, host, 0x4810);
    lemma_field(config, caps, fixed, host, 0x4812);
    lemma_field(config, caps, fixed, host, 0x4820);
    lemma_field(config, caps, fixed, host, 0x4822);
    lemma_field(config, caps, fixed, host, 0x6812);
    lemma_field(config, caps, fixed, host, 0x6814);
    lemma_field(config, caps, fixed, host, 0x6816);
    lemma_field(config, caps, fixed, host, 0x6818);
    lemma_field(config, caps, fixed, host, 0x6824);
    lemma_field(config, caps, fixed, host, 0x6826);
    lemma_field(config, caps, fixed, host, 0x482a);
}

/// The guest is active, nothing blocks its interrupts and nothing is injected, and no
/// shadow VMCS is linked.
pub proof fn law_guest_is_active_without_a_shadow(
    config: GuestConfig,
    caps: ControlCapabilities,
    fixed: FixedBits,
    host: HostState,
)
    requires
        prepared(config, caps, fixed, host),
    ensures
        holds(steps(config, caps, fixed, host), 0x4826, 0),
        holds(steps(config, caps, fixed, host), 0x4824, 0),
        holds(steps(config, caps, fixed, host), 0x4016, 0),
        holds(steps(config, caps, fixed, host), 0x2800, 0xffff_ffff_ffff_ffff),
{
    lemma_field(config, caps, fixed, host, 0x4826);
    lemma_field(config, caps, fixed, host, 0x4824);
    lemma_field(config, caps, fixed, host, 0x4016);
    lemma_field(config, caps, fixed, host, 0x2800);
}

/// The control fields hold the controls that were chosen for the guest; no exception
/// leaves the guest, and no page table root is let through.
pub proof fn law_controls_are_those_chosen(
    config: GuestConfig,
    caps: ControlCapabilities,
    fixed: FixedBits,
    host: HostState,
)
    requires
        prepared(config, caps, fixed, host),
    ensures
        holds(steps(config, caps, fixed, host), 0x4000, controls_for(config.boot_mode, caps)->Ok_0.pin),
        holds(steps(config, caps, fixed, host), 0x4002, controls_for(config.boot_mode, caps)->Ok_0.primary),
        holds(steps(config, caps, fixed, host), 0x401e, controls_for(config.boot_mode, caps)->Ok_0.secondary),
        holds(steps(config, caps, fixed, host), 0x400c, controls_for(config.boot_mode, caps)->Ok_0.exit),
        holds(steps(config, caps, fixed, host), 0x4012, controls_for(config.boot_mode, caps)->Ok_0.entry),
        holds(steps(config, caps, fixed, host), 0x4004, 0),
        holds(steps(config, caps, fixed, host), 0x4006, 0),
        holds(steps(config, caps, fixed, host), 0x4008, 0),
        holds(steps(config, caps, fixed, host), 0x400a, 0),
{
    lemma_field(config, caps, fixed, host, 0x4000);
    lemma_field(config, caps, fixed, host, 0x4002);
    lemma_field(config, caps, fixed, host, 0x401e);
    lemma_field(config, caps, fixed, host, 0x400c);
    lemma_field(config, caps, fixed, host, 0x4012);
    lemma_field(config, caps, fixed, host, 0x4004);
    lemma_field(config, caps, fixed, host, 0x4006);
    lemma_field(config, caps, fixed, host, 0x4008);
    lemma_field(config, caps, fixed, host, 0x400a);
}

/// The MSR bitmap (0x2004) is the guest's own. On an exit the six guest MSRs are stored
/// in the list of its state page (0x2006), from which the next entry loads them
/// (0x200a), and the host's are loaded from the list behind it (0x2008), six entries of
/// sixteen bytes further on.
pub proof fn law_msr_lists_are_switched(
    config: GuestConfig,
    caps: ControlCapabilities,
    fixed: FixedBits,
    host: HostState,
)
    requires
        prepared(config, caps, fixed, host),
    ensures
        holds(steps(config, caps, fixed, host), 0x2004, config.msr_permission_map),
        holds(steps(config, caps, fixed, host), 0x2006, config.msr_state_page),
        holds(steps(config, caps, fixed, host), 0x200a, config.msr_state_page),
        holds(steps(config, caps, fixed, host), 0x2008, (config.msr_state_page + 96) as u64),
        holds(steps(config, caps, fixed, host), 0x400e, 6),
        holds(steps(config, caps, fixed, host), 0x4010, 6),
        holds(steps(config, caps, fixed, host), 0x4014, 6),
{
    lemma_field(config, caps, fixed, host, 0x2004);
    lemma_field(config, caps, fixed, host, 0x2006);
    lemma_field(config, caps, fixed, host, 0x200a);
    lemma_field(config, caps, fixed, host, 0x2008);
    lemma_field(config, caps, fixed, host, 0x400e);
    lemma_field(config, caps, fixed, host, 0x4010);
    lemma_field(config, caps, fixed, host, 0x4014);
}

/// An exit loads the host's selectors, each without its table and privilege bits.
pub proof fn law_exit_returns_to_the_host_selectors(
    config: GuestConfig,
    caps: ControlCapabilities,
    fixed: FixedBits,
    host: HostState,
)
    requires
        prepared(config, caps, fixed, host),
    ensures
        holds(steps(config, caps, fixed, host), 0xc00, (host.es - host.es % 8) as u64),
        holds(steps(config, caps, fixed, host), 0xc02, (host.cs - host.cs % 8) as u64),
        holds(steps(config, caps, fixed, host), 0xc04, (host.ss - host.ss % 8) as u64),
        holds(steps(config, caps, fixed, host), 0xc06, (host.ds - host.ds % 8) as u64),
        holds(steps(config, caps, fixed, host), 0xc08, (host.fs - host.fs % 8) as u64),
        holds(steps(config, caps, fixed, host), 0xc0a, (host.gs - host.gs % 8) as u64),
        holds(steps(config, caps, fixed, host), 0xc0c, (host.tr - host.tr % 8) as u64),
{
    let (a, b, c, d) = (host.es, host.cs, host.ss, host.ds);
    let (e, f, g) = (host.fs, host.gs, host.tr);
    assert(a & !7u16 == a - a % 8 && b & !7u16 == b - b % 8 && c & !7u16 == c - c % 8 && d & !7u16
        == d - d % 8 && e & !7u16 == e - e % 8 && f & !7u16 == f - f % 8 && g & !7u16 == g - g % 8)
        by (bit_vector);
    lemma_field(config, caps, fixed, host, 0xc00);
    lemma_field(config, caps, fixed, host, 0xc02);
    lemma_field(config, caps, fixed, host, 0xc04);
    lemma_field(config, caps, fixed, host, 0xc06);
    lemma_field(config, caps, fixed, host, 0xc08);
    lemma_field(config, caps, fixed, host, 0xc0a);
    lemma_field(config, caps, fixed, host, 0xc0c);
}

/// An exit returns to the host as it was: its control registers, the bases of its
/// segments and tables, its system-call entry, EFER and page attributes.
pub proof fn law_exit_returns_to_the_host_registers(
    config: GuestConfig,
    caps: ControlCapabilities,
    fixed: FixedBits,
    host: HostState,
)
    requires
        prepared(config, caps, fixed, host),
    ensures
        holds(steps(config, caps, fixed, host), 0x6c00, host.cr0),
        holds(steps(config, caps, fixed, host), 0x6c02, host.cr3),
        holds(steps(config, caps, fixed, host), 0x6c04, host.cr4),
        holds(steps(config, caps, fixed, host), 0x6c06, host.fs_base),
        holds(steps(config, caps, fixed, host), 0x6c08, host.gs_base),
        holds(steps(config, caps, fixed, host), 0x6c0a, host.tr_base),
        holds(steps(config, caps, fixed, host), 0x6c0c, host.gdt_base),
        holds(steps(config, caps, fixed, host), 0x6c0e, host.idt_base),
        holds(steps(config, caps, fixed, host), 0x4c00, host.sysenter_cs & 0xffff),
        holds(steps(config, caps, fixed, host), 0x6c10, host.sysenter_esp),
        holds(steps(config, caps, fixed, host), 0x6c12, host.sysenter_eip),
        holds(steps(config, caps, fixed, host), 0x2c02, host.efer),
        holds(steps(config, caps, fixed, host), 0x2c00, host.pat),
{
    lemma_field(config, caps, fixed, host, 0x6c00);
    lemma_field(config, caps, fixed, host, 0x6c02);
    lemma_field(config, caps, fixed, host, 0x6c04);
    lemma_field(config, caps, fixed, host, 0x6c06);
    lemma_field(config, caps, fixed, host, 0x6c08);
    lemma_field(config, caps, fixed, host, 0x6c0a);
    lemma_field(config, caps, fixed, host, 0x6c0c);
    lemma_field(config, caps, fixed, host, 0x6c0e);
    lemma_field(config, caps, fixed, host, 0x4c00);
    lemma_field(config, caps, fixed, host, 0x6c10);
    lemma_field(config, caps, fixed, host, 0x6c12);
    lemma_field(config, caps, fixed, host, 0x2c02);
    lemma_field(config, caps, fixed, host, 0x2c00);
}

/// Preparing a VMCS succeeds exactly where the controls can be had and both the MSR
/// bitmap and the MSR state are pages; the lists are then stored in the state page.
pub proof fn law_preparation_needs_controls_and_pages(
    config: GuestConfig,
    caps: ControlCapabilities,
    fixed: FixedBits,
    host: HostState,
)
    ensures
        prepared(config, caps, fixed, host) <==> controls_for(config.boot_mode, caps) is Ok
            && config.msr_permission_map != 0 && config.msr_permission_map % 0x1000 == 0
            && config.msr_state_page != 0 && config.msr_state_page % 0x1000 == 0,
        prepared(config, caps, fixed, host) ==> steps(config, caps, fixed, host).contains(
            VmcsAction::StoreMsrLists { page: config.msr_state_page },
        ),
        controls_for(config.boot_mode, caps) matches Err(e) ==> vmcs_steps(
            config,
            caps,
            fixed,
            host,
        ).1 == Err::<(), Error>(e),
        controls_for(config.boot_mode, caps) is Ok && !prepared(config, caps, fixed, host)
            ==> vmcs_steps(config, caps, fixed, host).1 == Err::<(), Error>(Error::InvalidPage),
{
    if prepared(config, caps, fixed, host) {
        assert(steps(config, caps, fixed, host)[14] == (VmcsAction::StoreMsrLists {
            page: config.msr_state_page,
        }));
    }
}

/// What the controls of a guest set: of each, the bits that were wanted or are required
/// (the low half of its capability) as far as they are offered (the high half). Wanted
/// are exits for external interrupts; for halts, with MSR bitmaps and secondary
/// controls; EPT, and for a guest that boots by itself a start without paging; a 64-bit
/// host that acknowledges interrupts and switches EFER, and page attributes for such a
/// guest; and on entry EFER with long mode, or with page attributes.
pub proof fn law_controls_ask_for_what_isolation_needs(
    boot_mode: GuestBootMode,
    caps: ControlCapabilities,
)
    requires
        controls_for(boot_mode, caps) is Ok,
    ensures
        ({
            let c = controls_for(boot_mode, caps)->Ok_0;
            let pvh = boot_mode == GuestBootMode::LinuxPvh32;
            &&& c.pin == (1u64 | (caps.pin & 0xffff_ffff)) & (caps.pin >> 32)
            &&& c.primary == (0x9000_0080u64 | (caps.primary & 0xffff_ffff)) & (caps.primary >> 32)
            &&& c.secondary == (if pvh {
                0x82u64
            } else {
                0x2u64
            } | (caps.secondary & 0xffff_ffff)) & (caps.secondary >> 32)
            &&& c.exit == (if pvh {
                0x3c_8200u64
            } else {
                0x30_8200u64
            } | (caps.exit & 0xffff_ffff)) & (caps.exit >> 32)
            &&& c.entry == (if pvh {
                0xc000u64
            } else {
                0x8200u64
            } | (caps.entry & 0xffff_ffff)) & (caps.entry >> 32)
            &&& c.pin & 1 != 0
            &&& c.primary & 0x1000_0000 != 0
            &&& c.secondary & 2 != 0
            &&& pvh ==> c.secondary & 0x80 != 0
            &&& c.exit & 0x8000 != 0
            &&& (caps.primary >> 32) & 4 != 0
        }),
{
    lemma_wanted();
}

proof fn lemma_wanted()
    ensures
        0x2u64 | 0x80 == 0x82,
        0x30_8200u64 | 0xc_0000 == 0x3c_8200,
        0x4000u64 | 0x8000 == 0xc000,
        0x200u64 | 0x8000 == 0x8200,
        0x1u64 & 0x1 == 0x1,
        0x9000_0080u64 & 0x1000_0000 == 0x1000_0000,
        0x2u64 & 0x2 == 0x2,
        (0x2u64 | 0x80) & 0x2 == 0x2,
        (0x2u64 | 0x80) & 0x80 == 0x80,
        0x30_8200u64 & 0x8000 == 0x8000,
        (0x30_8200u64 | 0xc_0000) & 0x8000 == 0x8000,
{
    assert(0x2u64 | 0x80 == 0x82 && 0x30_8200u64 | 0xc_0000 == 0x3c_8200 && 0x4000u64 | 0x8000
        == 0xc000 && 0x200u64 | 0x8000 == 0x8200 && 0x1u64 & 0x1 == 0x1 && 0x9000_0080u64
        & 0x1000_0000 == 0x1000_0000 && 0x2u64 & 0x2 == 0x2 && (0x2u64 | 0x80) & 0x2 == 0x2 && (
    0x2u64 | 0x80) & 0x80 == 0x80 && 0x30_8200u64 & 0x8000 == 0x8000 && (0x30_8200u64 | 0xc_0000)
        & 0x8000 == 0x8000) by (bit_vector);
}

/// A processor is refused only for what it lacks: a guest gets its controls wherever
/// interrupt windows, EPT, MSR bitmaps, interrupt exits and acknowledgement are offered,
/// and for a guest that boots by itself a start without paging.
pub proof fn law_controls_are_refused_only_for_what_is_missing(
    boot_mode: GuestBootMode,
    caps: ControlCapabilities,
)
    ensures
        (caps.primary >> 32) & 4 == 0 ==> controls_for(boot_mode, caps) == Err::<VmControls, Error>(
            Error::InterruptVirtualizationUnavailable,
        ),
        (caps.primary >> 32) & 4 != 0 && (caps.secondary >> 32) & 2 == 0 ==> controls_for(
            boot_mode,
            caps,
        ) == Err::<VmControls, Error>(Error::NestedPagingUnavailable),
        (caps.primary >> 32) & 4 != 0 && (caps.secondary >> 32) & 2 != 0 && (caps.primary >> 32)
            & 0x1000_0000 == 0 ==> controls_for(boot_mode, caps) == Err::<VmControls, Error>(
            Error::UnsupportedCpu,
        ),
        (caps.primary >> 32) & 4 != 0 && (caps.secondary >> 32) & 2 != 0 && (caps.primary >> 32)
            & 0x1000_0000 != 0 && boot_mode == GuestBootMode::LinuxPvh32 && (caps.secondary >> 32)
            & 0x80 == 0 ==> controls_for(boot_mode, caps) == Err::<VmControls, Error>(
            Error::UnsupportedCpu,
        ),
        (caps.primary >> 32) & 4 != 0 && (caps.secondary >> 32) & 2 != 0 && (caps.primary >> 32)
            & 0x1000_0000 != 0 && (boot_mode == GuestBootMode::LinuxPvh32 ==> (caps.secondary >> 32)
            & 0x80 != 0) ==> (controls_for(boot_mode, caps) is Ok <==> (caps.pin >> 32) & 1 != 0 && (
        caps.exit >> 32) & 0x8000 != 0),
        (caps.primary >> 32) & 4 != 0 && (caps.secondary >> 32) & 2 != 0 && (caps.primary >> 32)
            & 0x1000_0000 != 0 && (boot_mode == GuestBootMode::LinuxPvh32 ==> (caps.secondary >> 32)
            & 0x80 != 0) && ((caps.pin >> 32) & 1 == 0 || (caps.exit >> 32) & 0x8000 == 0)
            ==> controls_for(boot_mode, caps) == Err::<VmControls, Error>(
            Error::InterruptVirtualizationUnavailable,
        ),
{
    lemma_offered(0x1, caps.pin, 0x1);
    lemma_offered(0x9000_0080, caps.primary, 0x1000_0000);
    lemma_offered(0x2, caps.secondary, 0x2);
    lemma_offered(0x2u64 | 0x80, caps.secondary, 0x2);
    lemma_offered(0x2u64 | 0x80, caps.secondary, 0x80);
    lemma_offered(0x30_8200, caps.exit, 0x8000);
    lemma_offered(0x30_8200u64 | 0xc_0000, caps.exit, 0x8000);
    lemma_wanted();
}

/// A bit that is wanted is set where it is offered.
proof fn lemma_offered(desired: u64, capability: u64, bit: u64)
    ensures
        desired & bit == bit ==> vm_control(desired, capability) & bit == (capability >> 32) & bit,
{
    assert(desired & bit == bit ==> ((desired | (capability & 0xffff_ffff)) & (capability >> 32))
        & bit == (capability >> 32) & bit) by (bit_vector);
}

/// Each of the six switched MSRs stands at the same place of both lists, in the order
/// of the system-call MSRs and the two kernel bases; the guest's values start at zero
/// and the host's are the ones given, and nothing else of the page is used.
pub proof fn law_msr_lists_pair_index_and_value(host_values: Seq<u64>, i: int)
    requires
        host_values.len() == 6,
        0 <= i < 6,
    ensures
        msr_list_words(host_values).len() == 512,
        msr_list_words(host_values)[2 * i] == (if i < 4 {
            0xc000_0081 + i
        } else {
            0xc000_0102 + i - 4
        }),
        msr_list_words(host_values)[12 + 2 * i] == msr_list_words(host_values)[2 * i],
        msr_list_words(host_values)[2 * i + 1] == 0,
        msr_list_words(host_values)[12 + 2 * i + 1] == host_values[i],
        forall|k: int| 24 <= k < 512 ==> #[trigger] msr_list_words(host_values)[k] == 0,
{
    assert((12 + 2 * i) / 2 % 6 == i);
}

/// A 64-bit guest finds its boot information in RDI and one that boots by itself in
/// RBX; every other register starts at zero.
pub proof fn law_guest_finds_its_boot_information(config: GuestConfig)
    ensures
        ({
            let words = start_context(config).layout();
            &&& words.len() == 16
            &&& words[1] == (if config.boot_mode == GuestBootMode::LinuxPvh32 {
                0
            } else {
                config.boot_info
            })
            &&& words[4] == (if config.boot_mode == GuestBootMode::LinuxPvh32 {
                config.boot_info
            } else {
                0
            })
            &&& forall|i: int| 0 <= i < 16 && i != 1 && i != 4 ==> #[trigger] words[i] == 0
        }),
{
}

/// What a guest asks for is taken from the registers that its instruction names, and an
/// exit of one kind carries nothing of another: a hypercall has its number in RAX and
/// its arguments in RDI, RSI and RDX; an MSR is named by ECX and written from EDX:EAX;
/// CPUID takes EAX and ECX; a nested page fault comes from the exit fields alone.
pub proof fn law_exit_carries_what_the_instruction_names(
    context: VmxRunContext,
    fields: ExitFields,
)
    ensures
        match (fields.reason & 0xffff, exit_of(context, fields)) {
            (7, Ok(exit)) => exit.reason == VmExitReason::InterruptWindow,
            (12, Ok(exit)) => exit.reason == VmExitReason::Halt,
            (1, Ok(exit)) => exit.reason == VmExitReason::Preempted && exit.fault_info
                == fields.interruption_info && fields.interruption_info & 0x8000_0000 != 0
                && fields.interruption_info & 0x700 == 0,
            (1, Err(e)) => e == Error::UnexpectedVmExit(1) && (fields.interruption_info
                & 0x8000_0000 == 0 || fields.interruption_info & 0x700 != 0),
            (18, Ok(exit)) => exit.reason == VmExitReason::Hypercall && exit.hypercall_number
                == context.layout()[0] && exit.arg0 == context.layout()[1] && exit.arg1
                == context.layout()[2] && exit.arg2 == context.layout()[3],
            (31, Ok(exit)) => exit.reason == VmExitReason::MsrRead && exit.msr
                == context.layout()[11] % 0x1_0000_0000,
            (32, Ok(exit)) => exit.reason == VmExitReason::MsrWrite && exit.msr
                == context.layout()[11] % 0x1_0000_0000 && exit.msr_value == context.layout()[0]
                % 0x1_0000_0000 + context.layout()[3] % 0x1_0000_0000 * 0x1_0000_0000,
            (10, Ok(exit)) => exit.reason == VmExitReason::Cpuid && exit.cpuid_leaf
                == context.layout()[0] % 0x1_0000_0000 && exit.cpuid_subleaf
                == context.layout()[11] % 0x1_0000_0000,
            (48, Ok(exit)) => exit.reason == VmExitReason::NestedPageFault && exit.fault_address
                == fields.guest_physical_address && exit.fault_info == fields.qualification,
            (other, Ok(_)) => false,
            (other, Err(e)) => e == Error::UnexpectedVmExit(other) && other != 7 && other != 12
                && other != 18 && other != 31 && other != 32 && other != 10 && other != 48,
        },
        exit_of(context, fields) matches Ok(exit) ==> {
            &&& exit.raw_reason == fields.reason & 0xffff
            &&& exit.reason != VmExitReason::Hypercall ==> exit.hypercall_number == 0 && exit.arg0
                == 0 && exit.arg1 == 0 && exit.arg2 == 0
            &&& exit.reason != VmExitReason::MsrRead && exit.reason != VmExitReason::MsrWrite
                ==> exit.msr == 0
            &&& exit.reason != VmExitReason::MsrWrite ==> exit.msr_value == 0
            &&& exit.reason != VmExitReason::Cpuid ==> exit.cpuid_leaf == 0 && exit.cpuid_subleaf
                == 0
            &&& exit.reason != VmExitReason::NestedPageFault ==> exit.fault_address == 0
            &&& exit.reason != VmExitReason::NestedPageFault && exit.reason
                != VmExitReason::Preempted ==> exit.fault_info == 0
        },
{
    let (a, c, d) = (context.rax, context.rcx, context.rdx);
    assert(a as u32 == a % 0x1_0000_0000 && c as u32 == c % 0x1_0000_0000 && (a as u32 as u64) | ((
    d as u32 as u64) << 32) == a % 0x1_0000_0000 + d % 0x1_0000_0000 * 0x1_0000_0000)
        by (bit_vector);
}

} // verus!
