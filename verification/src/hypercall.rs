//! What Domains may ask for, and what they are answered.
//!
//! A request whose arguments are refused changes nothing and is answered with
//! `HYPERCALL_INVALID_ARGUMENT`.

use vstd::prelude::*;
use vstd::string::*;

use crate::abi::{
    DomainCrashInfo, PciDeviceInfo, PciDeviceResource, DOMAIN_CAPABILITY_DEVICE_CLAIM,
    DOMAIN_CAPABILITY_DEVICE_QUERY, DOMAIN_CRASH_INFO_SIZE, EVENT_CHANNEL_NO_EVENT,
    EVENT_CHANNEL_VECTOR, GRANT_FLAG_WRITABLE, HYPERCALL_INVALID_ARGUMENT, HYPERCALL_SUCCESS,
    PCI_DEVICE_INFO_SIZE, PCI_DEVICE_RESOURCE_SIZE, PCI_DEVICE_STATE_ACTIVE,
    PCI_RESOURCE_FLAG_READABLE, PCI_RESOURCE_FLAG_WRITABLE, PCI_RESOURCE_KIND_MMIO,
};
use crate::device::{activate_verdict, visible_to, with_owner, DeviceTable};
use crate::domain::{DomainId, DomainRole, DomainState};
use crate::event::{
    channel_of, collected, event_of, has_event, law_port_is_looked_up_exactly,
    law_received_event_is_the_domains_own, peer_of, signalled, waits, Endpoint, EventChannel,
    EventChannelTable, EventDelivery,
};
use crate::grant::{
    created, is_mapped, is_reference, is_slot, mapped, moved, named, reference_number, revoked,
    target_slot, unmapped, with_grant, GrantError, GrantMapping, GrantRef, GrantSlot, GrantTable,
};
use crate::halt::Stage;
use crate::layout::{grant_window_contains, is_grant_page};
use crate::manifest::utf8_str;
use crate::memory::{
    entry, is_ram_page, law_restore_undoes_share, ram_flags, ram_slot, shared_flags,
};
use crate::pci::{
    config_address_of, lemma_slot_of, slot_of, Assignment, AssignmentTable, PciInterruptMode,
};
use crate::physical::PhysicalMemory;
use crate::supervisor::{
    all_wf, domain_is_running, find_domain, index_of_domain, is_running, RuntimeDomain,
};
use crate::VmExit;

verus! {

/// Longer messages are refused.
pub const MAX_CONSOLE_WRITE: u64 = 4096;

/// "DISPLAY" and a line feed: a message that begins so is a page for the screen.
pub const DISPLAY_PREFIX: [u8; 8] = [0x44, 0x49, 0x53, 0x50, 0x4c, 0x41, 0x59, 0x0a];

/// A Domain that drives hardware and has the right.
pub open spec fn is_authorized(runtime: RuntimeDomain, capability: u64) -> bool {
    runtime.domain.role == DomainRole::Hardware && runtime.domain.capabilities & capability != 0
}

/// Where a range of the Domain's memory lies, if it is all the Domain's.
pub open spec fn host_range(runtime: RuntimeDomain, address: u64, len: u64) -> Option<u64> {
    if address + len <= runtime.memory_size() {
        Some((runtime.domain.nested_pages@.guest_base + address) as u64)
    } else {
        None
    }
}

/// A request without arguments.
pub open spec fn has_no_arguments(exit: VmExit) -> bool {
    exit.arg0 == 0 && exit.arg1 == 0 && exit.arg2 == 0
}

impl RuntimeDomain {
    /// What the hypercall returns.
    pub fn answer(&mut self, result: u64)
        ensures
            *final(self) == (RuntimeDomain { pending_result: result, ..*old(self) }),
    {
        self.pending_result = result;
    }
}

/// A record of the `arg0`-th PCI function for the Domain's memory at `arg1`, where
/// `arg2` bytes are free. Gives the address and the record.
pub fn device_query(
    runtime: &RuntimeDomain,
    devices: &DeviceTable,
    exit: &VmExit,
) -> (r: Option<(u64, PciDeviceInfo)>)
    requires
        runtime.wf(),
    ensures
        r == (match host_range(*runtime, exit.arg1, PCI_DEVICE_INFO_SIZE) {
            Some(destination) => if is_authorized(*runtime, DOMAIN_CAPABILITY_DEVICE_QUERY)
                && exit.arg2 >= PCI_DEVICE_INFO_SIZE && exit.arg0 < devices@.len() {
                Some(
                    (
                        destination,
                        visible_to(
                            devices@,
                            devices@[exit.arg0 as int],
                            runtime.domain.id.value,
                        ),
                    ),
                )
            } else {
                None
            },
            None => None,
        }),
{
    if runtime.domain.role != DomainRole::Hardware || runtime.domain.capabilities
        & DOMAIN_CAPABILITY_DEVICE_QUERY == 0 || exit.arg2 < PCI_DEVICE_INFO_SIZE {
        return None;
    }
    if exit.arg0 >= devices.len() as u64 {
        return None;
    }
    let destination: u64 = runtime.domain.nested_pages.guest_host_address(
        exit.arg1,
        PCI_DEVICE_INFO_SIZE,
    )?;
    let info = devices.query(runtime.domain.id.value, exit.arg0 as usize)?;
    Some((destination, info))
}

/// What the screen shows of a query by a Domain with the right: the place that was
/// asked for, and the function that is there.
pub fn device_query_report(
    runtime: &RuntimeDomain,
    devices: &DeviceTable,
    exit: &VmExit,
) -> (r: Option<(u16, Option<u16>)>)
    ensures
        r == (if is_authorized(*runtime, DOMAIN_CAPABILITY_DEVICE_QUERY) {
            Some(
                (
                    if exit.arg0 <= 0xffff {
                        exit.arg0 as u16
                    } else {
                        0xffff
                    },
                    if exit.arg0 < devices@.len() {
                        Some(devices@[exit.arg0 as int].info.requester)
                    } else {
                        None
                    },
                ),
            )
        } else {
            None
        }),
{
    if runtime.domain.role != DomainRole::Hardware || runtime.domain.capabilities
        & DOMAIN_CAPABILITY_DEVICE_QUERY == 0 {
        return None;
    }
    let place: u16 = if exit.arg0 <= 0xffff {
        exit.arg0 as u16
    } else {
        0xffff
    };
    if exit.arg0 >= devices.len() as u64 {
        return Some((place, None));
    }
    match devices.query(runtime.domain.id.value, exit.arg0 as usize) {
        Some(info) => Some((place, Some(info.requester))),
        None => Some((place, None)),
    }
}

/// What the screen shows of a claim by a Domain with the right: the function that it
/// names in `arg0`.
pub fn device_claim_report(runtime: &RuntimeDomain, exit: &VmExit) -> (r: Option<u16>)
    ensures
        r == (if is_authorized(*runtime, DOMAIN_CAPABILITY_DEVICE_CLAIM) && 1 <= exit.arg0
            <= 0xffff {
            Some(exit.arg0 as u16)
        } else {
            None
        }),
{
    if runtime.domain.role == DomainRole::Hardware && runtime.domain.capabilities
        & DOMAIN_CAPABILITY_DEVICE_CLAIM != 0 && exit.arg0 >= 1 && exit.arg0 <= 0xffff {
        Some(exit.arg0 as u16)
    } else {
        None
    }
}

/// The function that a Domain with the right to claim names in `arg0`.
pub fn device_request(runtime: &RuntimeDomain, exit: &VmExit) -> (r: Option<u16>)
    ensures
        r == (if is_authorized(*runtime, DOMAIN_CAPABILITY_DEVICE_CLAIM) && exit.arg1 == 0
            && exit.arg2 == 0 && 1 <= exit.arg0 <= 0xffff {
            Some(exit.arg0 as u16)
        } else {
            None
        }),
{
    if runtime.domain.role == DomainRole::Hardware && runtime.domain.capabilities
        & DOMAIN_CAPABILITY_DEVICE_CLAIM != 0 && exit.arg1 == 0 && exit.arg2 == 0 && exit.arg0 >= 1
        && exit.arg0 <= 0xffff {
        Some(exit.arg0 as u16)
    } else {
        None
    }
}

/// The configuration address that a Domain may read for the function in `arg0` and
/// the offset in `arg1`.
pub fn device_config_read(
    runtime: &RuntimeDomain,
    assignments: &AssignmentTable,
    exit: &VmExit,
) -> (r: Option<u32>)
    ensures
        r == (if runtime.domain.role == DomainRole::Hardware && 1 <= exit.arg0 <= 0xffff
            && exit.arg1 <= 0xfc && exit.arg1 % 4 == 0 && slot_of(
            assignments@,
            runtime.domain.id.value,
            exit.arg0 as u16,
            0,
        ) < 32 {
            let requester = exit.arg0 as u16;
            Some(
                config_address_of(
                    (requester >> 8) as u8,
                    ((requester >> 3) & 0x1f) as u8,
                    (requester & 7) as u8,
                    exit.arg1 as u8,
                ),
            )
        } else {
            None
        }),
{
    if runtime.domain.role != DomainRole::Hardware || exit.arg0 > 0xffff || exit.arg1 > 0xffff {
        return None;
    }
    let offset: u16 = exit.arg1 as u16;
    match assignments.config_read(runtime.domain.id.value, exit.arg0 as u16, offset) {
        Ok(address) => {
            assert(offset as u8 == exit.arg1 as u8);
            Some(address)
        },
        Err(_) => None,
    }
}

/// A record of BAR `arg1` of the function in `arg0` for the Domain's memory at
/// `arg2`. Gives the address and the record.
pub fn device_resource_query(
    runtime: &RuntimeDomain,
    assignments: &AssignmentTable,
    exit: &VmExit,
) -> (r: Option<(u64, PciDeviceResource)>)
    requires
        runtime.wf(),
        assignments.wf(),
    ensures
        ({
            let slot = slot_of(assignments@, runtime.domain.id.value, exit.arg0 as u16, 0);
            if runtime.domain.role == DomainRole::Hardware && exit.arg0 <= 0xffff && slot < 32
                && exit.arg1 < assignments@[slot].descriptor.bar_count && host_range(
                *runtime,
                exit.arg2,
                PCI_DEVICE_RESOURCE_SIZE,
            ) is Some {
                let bar = assignments@[slot].descriptor.bars@[exit.arg1 as int];
                r == Some(
                    (
                        host_range(*runtime, exit.arg2, PCI_DEVICE_RESOURCE_SIZE)->0,
                        PciDeviceResource {
                            requester: exit.arg0 as u16,
                            bar_index: bar.index,
                            kind: PCI_RESOURCE_KIND_MMIO,
                            flags: PCI_RESOURCE_FLAG_READABLE | PCI_RESOURCE_FLAG_WRITABLE,
                            guest_address: bar.guest_address,
                            length: bar.length,
                        },
                    ),
                )
            } else {
                r is None
            }
        }),
{
    if runtime.domain.role != DomainRole::Hardware || exit.arg0 > 0xffff || exit.arg1 > 0xffff {
        proof {
            let slot = slot_of(assignments@, runtime.domain.id.value, exit.arg0 as u16, 0);
            lemma_slot_of(assignments@, runtime.domain.id.value, exit.arg0 as u16, 0);
            if slot < 32 {
                assert(assignments@[slot].descriptor.wf());
            }
        }
        return None;
    }
    let destination: u64 = runtime.domain.nested_pages.guest_host_address(
        exit.arg2,
        PCI_DEVICE_RESOURCE_SIZE,
    )?;
    let resource = assignments.resource(
        runtime.domain.id.value,
        exit.arg0 as u16,
        exit.arg1 as usize,
    )?;
    Some((destination, resource))
}

/// The function that a Domain wants to drive, and the vectors by which it wants to
/// hear from it.
pub fn device_activate_request(
    runtime: &RuntimeDomain,
    devices: &DeviceTable,
    exit: &VmExit,
) -> (r: Option<(u16, u8, u8)>)
    ensures
        r == (if exit.arg0 <= 0xffff && exit.arg1 <= 0xff && exit.arg2 <= 0xff
            && runtime.domain.role == DomainRole::Hardware && activate_verdict(
            devices@,
            runtime.domain.id.value,
            exit.arg0 as u16,
        ) is Ok {
            Some((exit.arg0 as u16, exit.arg1 as u8, exit.arg2 as u8))
        } else {
            None
        }),
{
    if exit.arg0 > 0xffff || exit.arg1 > 0xff || exit.arg2 > 0xff || runtime.domain.role
        != DomainRole::Hardware {
        return None;
    }
    if devices.can_activate(runtime.domain.id.value, exit.arg0 as u16).is_err() {
        return None;
    }
    Some((exit.arg0 as u16, exit.arg1 as u8, exit.arg2 as u8))
}

/// The function now signals: both tables learn of it.
pub fn device_activated(
    devices: &mut DeviceTable,
    assignments: &mut AssignmentTable,
    domain_id: u32,
    requester: u16,
    guest_vectors: [u8; 2],
    mode: PciInterruptMode,
) -> (r: Result<(), Stage>)
    requires
        old(assignments).wf(),
    ensures
        final(assignments).wf(),
        old(devices).wf() ==> final(devices).wf(),
        ({
            let slot = slot_of(old(assignments)@, domain_id, requester, 0);
            if slot >= 32 || old(assignments)@[slot].active {
                &&& r == Err::<(), Stage>(Stage::PciActivationState)
                &&& final(assignments)@ == old(assignments)@
                &&& final(devices)@ == old(devices)@
            } else {
                &&& final(assignments)@ == old(assignments)@.update(
                    slot,
                    Assignment {
                        active: true,
                        guest_vectors,
                        interrupt_count: mode.count() as u8,
                        ..old(assignments)@[slot]
                    },
                )
                &&& if activate_verdict(old(devices)@, domain_id, requester) is Ok {
                    &&& r == Ok::<(), Stage>(())
                    &&& final(devices)@ == with_owner(
                        old(devices)@,
                        requester,
                        PCI_DEVICE_STATE_ACTIVE,
                        domain_id,
                    )
                } else {
                    &&& r == Err::<(), Stage>(Stage::PciActivationState)
                    &&& final(devices)@ == old(devices)@
                }
            }
        }),
{
    if assignments.activate(domain_id, requester, guest_vectors, mode).is_err() {
        return Err(Stage::PciActivationState);
    }
    if devices.activate(domain_id, requester).is_err() {
        return Err(Stage::PciActivationState);
    }
    Ok(())
}

/// What the System Domain learns of the crash of Domain `arg0`, for its memory at
/// `arg1`, where `arg2` bytes are free.
pub fn domain_crash_query(
    domains: &Vec<RuntimeDomain>,
    index: usize,
    exit: &VmExit,
) -> (r: Option<(u64, DomainCrashInfo)>)
    requires
        index < domains@.len(),
        all_wf(domains@),
    ensures
        ({
            let runtime = domains@[index as int];
            let at = index_of_domain(domains@, exit.arg0 as u32, 0);
            if runtime.domain.role == DomainRole::System && exit.arg2 >= DOMAIN_CRASH_INFO_SIZE
                && exit.arg0 <= u32::MAX && at < domains@.len() && domains@[at].crash_info is Some
                && host_range(runtime, exit.arg1, DOMAIN_CRASH_INFO_SIZE) is Some {
                r == Some(
                    (
                        host_range(runtime, exit.arg1, DOMAIN_CRASH_INFO_SIZE)->0,
                        domains@[at].crash_info->0,
                    ),
                )
            } else {
                r is None
            }
        }),
{
    let runtime = domains[index];
    if runtime.domain.role != DomainRole::System || exit.arg2 < DOMAIN_CRASH_INFO_SIZE || exit.arg0
        > 0xffff_ffff {
        return None;
    }
    let at: usize = find_domain(domains, exit.arg0 as u32)?;
    let info = domains[at].crash_info?;
    let destination: u64 = runtime.domain.nested_pages.guest_host_address(
        exit.arg1,
        DOMAIN_CRASH_INFO_SIZE,
    )?;
    Some((destination, info))
}

/// The memory that holds a message of `arg1` bytes at `arg0`.
pub fn console_request(runtime: &RuntimeDomain, exit: &VmExit) -> (r: Option<(u64, u64)>)
    requires
        runtime.wf(),
    ensures
        r == (if exit.arg1 > MAX_CONSOLE_WRITE {
            None
        } else {
            match host_range(*runtime, exit.arg0, exit.arg1) {
                Some(address) => Some((address, exit.arg1)),
                None => None,
            }
        }),
{
    if exit.arg1 > MAX_CONSOLE_WRITE {
        return None;
    }
    let address: u64 = runtime.domain.nested_pages.guest_host_address(exit.arg0, exit.arg1)?;
    Some((address, exit.arg1))
}

/// Whether a Domain of this role may show pages.
pub open spec fn may_show(role: DomainRole) -> bool {
    role == DomainRole::System || role == DomainRole::Hardware
}

/// The page in a message, behind its prefix.
pub open spec fn page_in(message: Seq<u8>) -> Option<Seq<u8>> {
    if message.len() >= 8 && message.take(8) == DISPLAY_PREFIX@ {
        Some(message.skip(8))
    } else {
        None
    }
}

/// The text of a message, and the page in it that goes to the screen. A message
/// that is no text is refused.
pub fn handle_console_write(role: DomainRole, message: &[u8]) -> (r: Option<(&str, Option<&[u8]>)>)
    ensures
        match r {
            None => !vstd::utf8::valid_utf8(message@),
            Some((text, page)) => {
                &&& vstd::utf8::valid_utf8(message@)
                &&& text.spec_bytes() == message@
                &&& match page {
                    Some(page) => may_show(role) && page_in(message@) == Some(page@),
                    None => !may_show(role) || page_in(message@) is None,
                }
            },
        },
{
    let text = match utf8_str(message) {
        Some(text) => text,
        None => {
            return None;
        },
    };
    let shows = match role {
        DomainRole::System => true,
        DomainRole::Hardware => true,
        DomainRole::Application => false,
    };
    if !shows || message.len() < 8 {
        return Some((text, None));
    }
    let prefix: [u8; 8] = DISPLAY_PREFIX;
    let mut i: usize = 0;
    while i < 8
        invariant
            i <= 8 <= message@.len(),
            prefix@ == DISPLAY_PREFIX@,
            may_show(role),
            vstd::utf8::valid_utf8(message@),
            text.spec_bytes() == message@,
            forall|j: int| 0 <= j < i ==> #[trigger] message@[j] == DISPLAY_PREFIX@[j],
        decreases 8 - i,
    {
        if message[i] != prefix[i] {
            assert(message@.take(8)[i as int] != DISPLAY_PREFIX@[i as int]);
            return Some((text, None));
        }
        i += 1;
    }
    assert(message@.take(8) =~= DISPLAY_PREFIX@);
    let page = vstd::slice::slice_subrange(message, 8, message.len());
    assert(page@ =~= message@.skip(8));
    Some((text, Some(page)))
}

/// The Domain lets others run.
pub fn yield_vcpu(runtime: &mut RuntimeDomain)
    requires
        old(runtime).yield_count < u64::MAX,
    ensures
        *final(runtime) == (RuntimeDomain {
            yield_count: (old(runtime).yield_count + 1) as u64,
            pending_result: HYPERCALL_SUCCESS,
            ..*old(runtime)
        }),
{
    runtime.yield_count = runtime.yield_count + 1;
    runtime.pending_result = HYPERCALL_SUCCESS;
}

/// What the screen shows when a Domain is up, and whether it is given away.
#[derive(Clone, Copy, Debug, PartialEq, Eq, Structural)]
pub enum ReadyReport {
    System { hand_off: bool },
    Hardware { hand_off: bool },
}

/// The Domain reports that it is up, which it does once. The System Domain then
/// gets the firmware's framebuffer, if there is no display driver; a Hardware
/// Domain the firmware's display.
pub fn ready(
    runtime: &mut RuntimeDomain,
    exit: &VmExit,
    framebuffer_fallback: bool,
    deferred_display: bool,
) -> (r: Option<ReadyReport>)
    ensures
        if !may_show(old(runtime).domain.role) || old(runtime).ready || !has_no_arguments(*exit) {
            &&& r is None
            &&& *final(runtime) == (RuntimeDomain {
                pending_result: HYPERCALL_INVALID_ARGUMENT,
                ..*old(runtime)
            })
        } else {
            &&& r == Some(
                if old(runtime).domain.role == DomainRole::System {
                    ReadyReport::System { hand_off: framebuffer_fallback }
                } else {
                    ReadyReport::Hardware { hand_off: deferred_display }
                },
            )
            &&& *final(runtime) == (RuntimeDomain {
                ready: true,
                pending_result: HYPERCALL_SUCCESS,
                ..*old(runtime)
            })
        },
{
    let report = match runtime.domain.role {
        DomainRole::System => ReadyReport::System { hand_off: framebuffer_fallback },
        DomainRole::Hardware => ReadyReport::Hardware { hand_off: deferred_display },
        DomainRole::Application => {
            runtime.pending_result = HYPERCALL_INVALID_ARGUMENT;
            return None;
        },
    };
    if runtime.ready || exit.arg0 != 0 || exit.arg1 != 0 || exit.arg2 != 0 {
        runtime.pending_result = HYPERCALL_INVALID_ARGUMENT;
        return None;
    }
    runtime.ready = true;
    runtime.pending_result = HYPERCALL_SUCCESS;
    Some(report)
}

/// The Domain sleeps until something happens. The System Domain has to be up first.
pub fn wait(domains: &mut Vec<RuntimeDomain>, runnable: &mut Vec<bool>, index: usize)
    requires
        index < old(domains)@.len(),
        old(runnable)@.len() == old(domains)@.len(),
    ensures
        ({
            let before = old(domains)@[index as int];
            if before.domain.role == DomainRole::System && !before.ready {
                &&& final(domains)@ == old(domains)@.update(
                    index as int,
                    RuntimeDomain { pending_result: HYPERCALL_INVALID_ARGUMENT, ..before },
                )
                &&& final(runnable)@ == old(runnable)@
            } else {
                &&& final(domains)@ == old(domains)@.update(
                    index as int,
                    RuntimeDomain { pending_result: HYPERCALL_SUCCESS, waiting: true, ..before },
                )
                &&& final(runnable)@ == old(runnable)@.update(index as int, false)
            }
        }),
{
    let mut runtime = domains[index];
    if runtime.domain.role == DomainRole::System && !runtime.ready {
        runtime.pending_result = HYPERCALL_INVALID_ARGUMENT;
        domains.set(index, runtime);
    } else {
        runtime.pending_result = HYPERCALL_SUCCESS;
        runtime.waiting = true;
        domains.set(index, runtime);
        runnable.set(index, false);
    }
}

/// What may be granted: the host's page behind a page of the Domain's grant window
/// that is not another Domain's.
pub open spec fn granted_page(
    runtime: RuntimeDomain,
    grants: &GrantTable,
    page: u64,
) -> Option<u64> {
    if is_grant_page(runtime.memory_size(), page as int) && page + 0x1000 <= u64::MAX
        && !is_mapped(grants@, runtime.domain.id, page as int, 1) {
        Some((runtime.domain.nested_pages@.guest_base + page) as u64)
    } else {
        None
    }
}

/// Grants the page at `arg0` to Domain `arg1`, which must run. Bit zero of `arg2`
/// lets it write. Gives what the table makes of it, if the arguments are right.
pub fn grant_create(
    domains: &Vec<RuntimeDomain>,
    index: usize,
    grants: &mut GrantTable,
    exit: &VmExit,
) -> (r: Option<Result<GrantRef, GrantError>>)
    requires
        index < domains@.len(),
        all_wf(domains@),
        old(grants).wf(),
    ensures
        final(grants).wf(),
        ({
            let runtime = domains@[index as int];
            let page = granted_page(runtime, old(grants), exit.arg0);
            if exit.arg1 <= u32::MAX && is_running(domains@, exit.arg1 as u32) && exit.arg2
                <= GRANT_FLAG_WRITABLE && page is Some {
                r matches Some(made) && created(
                    old(grants)@,
                    runtime.domain.id,
                    DomainId { value: exit.arg1 as u32 },
                    page->0,
                    1,
                    exit.arg2 == GRANT_FLAG_WRITABLE,
                    made,
                    final(grants)@,
                )
            } else {
                r is None && final(grants)@ == old(grants)@
            }
        }),
{
    let runtime = domains[index];
    if exit.arg1 > 0xffff_ffff || exit.arg2 > GRANT_FLAG_WRITABLE {
        return None;
    }
    let target: u32 = exit.arg1 as u32;
    if !domain_is_running(domains, target) {
        return None;
    }
    let memory_size: u64 = runtime.domain.nested_pages.guest_memory_size();
    if !grant_window_contains(memory_size, exit.arg0) || grants.target_page_is_mapped(
        runtime.domain.id,
        exit.arg0,
    ) {
        return None;
    }
    let host_page: u64 = match runtime.domain.nested_pages.owned_page_host_address(exit.arg0) {
        Some(page) => page,
        None => {
            return None;
        },
    };
    Some(
        grants.create(
            runtime.domain.id,
            DomainId::new(target),
            host_page,
            exit.arg2 == GRANT_FLAG_WRITABLE,
        ),
    )
}

/// The number of the `arg0`-th grant that the Domain may map.
pub fn grant_query(runtime: &RuntimeDomain, grants: &GrantTable, exit: &VmExit) -> (r: Option<u32>)
    requires
        grants.wf(),
    ensures
        r == (if exit.arg1 == 0 && exit.arg2 == 0 {
            match target_slot(grants@, runtime.domain.id, exit.arg0 as int, 0) {
                Some(i) => Some(reference_number(i, grants@[i].generation) as u32),
                None => None,
            }
        } else {
            None
        }),
{
    if exit.arg1 != 0 || exit.arg2 != 0 {
        return None;
    }
    if exit.arg0 >= 64 {
        proof {
            lemma_no_such_grant(grants@, runtime.domain.id, exit.arg0 as int, 0);
        }
        return None;
    }
    match grants.query_target(runtime.domain.id, exit.arg0 as usize) {
        Some(reference) => Some(reference.get()),
        None => None,
    }
}

/// There are no more grants than slots.
proof fn lemma_no_such_grant(
    s: Seq<GrantSlot>,
    target: DomainId,
    ordinal: int,
    i: int,
)
    requires
        0 <= i <= s.len(),
        ordinal >= s.len() - i,
    ensures
        target_slot(s, target, ordinal, i) is None,
    decreases s.len() - i,
{
    if i < s.len() {
        lemma_no_such_grant(s, target, ordinal, i + 1);
        lemma_no_such_grant(s, target, ordinal - 1, i + 1);
    }
}

/// The grant that a number in `arg0` names.
pub fn grant_reference(exit: &VmExit) -> (r: Option<GrantRef>)
    ensures
        match r {
            Some(reference) => reference.wf() && reference.number() == exit.arg0,
            None => exit.arg0 > u32::MAX || !is_reference(exit.arg0 as u32),
        },
{
    if exit.arg0 > 0xffff_ffff {
        return None;
    }
    GrantRef::new(exit.arg0 as u32)
}

/// The table and memory in which a grant is mapped.
pub open spec fn is_grant_mapped(
    runtime: RuntimeDomain,
    before: Map<int, u64>,
    after: Map<int, u64>,
    mapping: GrantMapping,
) -> bool {
    after == before.insert(
        ram_slot(runtime.domain.nested_pages@, mapping.target_page),
        mapping.host_page | shared_flags(
            runtime.domain.nested_pages.spec_backend(),
            mapping.writable,
        ),
    )
}

/// Maps a grant at the page in `arg1`, which is one of the Domain's grant window.
pub fn grant_map(
    runtime: &RuntimeDomain,
    grants: &mut GrantTable,
    memory: &mut PhysicalMemory,
    reference: GrantRef,
    exit: &VmExit,
) -> (r: Option<GrantMapping>)
    requires
        runtime.wf(),
        reference.wf(),
        old(grants).wf(),
        old(memory).wf(),
        runtime.domain.nested_pages@.is_mapped(old(memory)@),
    ensures
        final(grants).wf(),
        final(memory).wf(),
        match mapped(old(grants)@, runtime.domain.id, reference, exit.arg1) {
            Ok(mapping) => if exit.arg2 == 0 && is_grant_page(
                runtime.memory_size(),
                exit.arg1 as int,
            ) {
                &&& r == Some(mapping)
                &&& final(grants)@ == with_grant(
                    old(grants)@,
                    reference.slot(),
                    Some(moved(named(old(grants)@, reference)->0, Some(exit.arg1))),
                )
                &&& is_grant_mapped(*runtime, old(memory)@, final(memory)@, mapping)
            } else {
                r is None && final(grants)@ == old(grants)@ && final(memory)@ == old(memory)@
            },
            Err(_) => {
                r is None && final(grants)@ == old(grants)@ && final(memory)@ == old(memory)@
            },
        },
{
    let memory_size: u64 = runtime.domain.nested_pages.guest_memory_size();
    if exit.arg2 != 0 || !grant_window_contains(memory_size, exit.arg1) {
        return None;
    }
    let mapping = match grants.map(runtime.domain.id, reference, exit.arg1) {
        Ok(mapping) => mapping,
        Err(_) => {
            return None;
        },
    };
    proof {
        let slot = old(grants)@[reference.slot()];
        assert(is_slot(slot));
    }
    let shared = runtime.domain.nested_pages.map_shared_page(
        mapping.target_page,
        mapping.host_page,
        mapping.writable,
        memory,
    );
    assert(shared is Ok);
    Some(mapping)
}

/// Takes a grant out of the Domain again, and its own page comes back.
pub fn grant_unmap(
    runtime: &RuntimeDomain,
    grants: &mut GrantTable,
    memory: &mut PhysicalMemory,
    reference: GrantRef,
    exit: &VmExit,
) -> (r: Result<Option<GrantMapping>, Stage>)
    requires
        runtime.wf(),
        reference.wf(),
        old(grants).wf(),
        old(memory).wf(),
        runtime.domain.nested_pages@.is_mapped(old(memory)@),
    ensures
        final(grants).wf(),
        final(memory).wf(),
        match unmapped(old(grants)@, runtime.domain.id, reference) {
            Ok(mapping) => if exit.arg1 == 0 && exit.arg2 == 0 {
                &&& final(grants)@ == with_grant(
                    old(grants)@,
                    reference.slot(),
                    Some(moved(named(old(grants)@, reference)->0, None)),
                )
                &&& if is_ram_page(runtime.domain.nested_pages@, mapping.target_page) {
                    &&& r == Ok::<Option<GrantMapping>, Stage>(Some(mapping))
                    &&& final(memory)@ == old(memory)@.insert(
                        ram_slot(runtime.domain.nested_pages@, mapping.target_page),
                        entry(
                            runtime.domain.nested_pages@.guest_base + mapping.target_page,
                            ram_flags(runtime.domain.nested_pages.spec_backend()),
                        ),
                    )
                } else {
                    r == Err::<Option<GrantMapping>, Stage>(Stage::GrantUnmap) && final(memory)@
                        == old(memory)@
                }
            } else {
                r == Ok::<Option<GrantMapping>, Stage>(None) && final(grants)@ == old(grants)@
                    && final(memory)@ == old(memory)@
            },
            Err(_) => {
                r == Ok::<Option<GrantMapping>, Stage>(None) && final(grants)@ == old(grants)@
                    && final(memory)@ == old(memory)@
            },
        },
{
    if exit.arg1 != 0 || exit.arg2 != 0 {
        return Ok(None);
    }
    let mapping = match grants.unmap(runtime.domain.id, reference) {
        Ok(mapping) => mapping,
        Err(_) => {
            return Ok(None);
        },
    };
    if runtime.domain.nested_pages.restore_owned_page(mapping.target_page, memory).is_err() {
        return Err(Stage::GrantUnmap);
    }
    Ok(Some(mapping))
}

/// Withdraws a grant that is not mapped.
pub fn grant_revoke(
    runtime: &RuntimeDomain,
    grants: &mut GrantTable,
    reference: GrantRef,
    exit: &VmExit,
) -> (r: bool)
    requires
        reference.wf(),
        old(grants).wf(),
    ensures
        final(grants).wf(),
        r == (exit.arg1 == 0 && exit.arg2 == 0 && revoked(
            old(grants)@,
            runtime.domain.id,
            reference,
        ) is Ok),
        final(grants)@ == (if r {
            with_grant(old(grants)@, reference.slot(), None)
        } else {
            old(grants)@
        }),
{
    if exit.arg1 != 0 || exit.arg2 != 0 {
        return false;
    }
    grants.revoke(runtime.domain.id, reference).is_ok()
}

/// What a Domain receives, and the channels after it.
pub open spec fn received(
    s: Seq<EventChannel>,
    domain: DomainId,
) -> (Option<u32>, Seq<EventChannel>) {
    let i = event_of(s, domain, 0);
    if i >= s.len() {
        (None, s)
    } else if waits(s[i].a, domain) {
        (Some(s[i].a.port), s.update(i, collected(s[i], domain)))
    } else {
        (Some(s[i].b.port), s.update(i, collected(s[i], domain)))
    }
}

/// What came of an event that was sent.
#[derive(Clone, Copy, Debug, PartialEq, Eq, Structural)]
pub struct EventSent {
    /// Where it went, if it went anywhere.
    pub delivery: Option<EventDelivery>,
    /// The Domain that gets an interrupt for it.
    pub raise: Option<usize>,
}

/// The machine while an event is sent.
#[verifier::ext_equal]
pub struct EventState {
    pub domains: Seq<RuntimeDomain>,
    pub runnable: Seq<bool>,
    pub channels: Seq<EventChannel>,
}

pub open spec fn answered(runtime: RuntimeDomain, result: u64) -> RuntimeDomain {
    RuntimeDomain { pending_result: result, ..runtime }
}

/// What sending an event from the port in `arg0` does. An event for a Domain that
/// does not run is refused and does not stay; one for a Domain that waits wakes it;
/// another one interrupts the receiver, if it wants that.
pub open spec fn event_sent(
    before: EventState,
    index: int,
    exit: VmExit,
) -> (EventSent, EventState) {
    let sender = before.domains[index].domain.id;
    let port = exit.arg0 as u32;
    let i = channel_of(before.channels, sender, port, 0);
    let nothing = EventSent { delivery: None, raise: None };
    let refused = before.domains.update(
        index,
        answered(before.domains[index], HYPERCALL_INVALID_ARGUMENT),
    );
    if exit.arg1 != 0 || exit.arg2 != 0 || exit.arg0 > u32::MAX || i >= before.channels.len() {
        (nothing, EventState { domains: refused, ..before })
    } else {
        let peer = peer_of(before.channels[i], sender, port);
        let sent = before.channels.update(i, signalled(before.channels[i], sender, port));
        let target = index_of_domain(before.domains, peer.domain.value, 0);
        let delivery = EventDelivery {
            domain: peer.domain,
            port: peer.port,
            first_delivery: !peer.reached,
        };
        let accepted = before.domains.update(
            index,
            answered(before.domains[index], HYPERCALL_SUCCESS),
        );
        if target >= before.domains.len() || before.domains[target].domain.state
            != DomainState::Running {
            (
                nothing,
                EventState {
                    domains: refused,
                    channels: received(sent, peer.domain).1,
                    ..before
                },
            )
        } else if before.domains[target].waiting {
            let (got, rest) = received(sent, peer.domain);
            let result = match got {
                Some(port) => port,
                None => peer.port,
            };
            (
                EventSent { delivery: Some(delivery), raise: None },
                EventState {
                    domains: accepted.update(
                        target,
                        RuntimeDomain {
                            pending_result: result as u64,
                            waiting: false,
                            ..accepted[target]
                        },
                    ),
                    runnable: before.runnable.update(target, true),
                    channels: rest,
                },
            )
        } else {
            (
                EventSent {
                    delivery: Some(delivery),
                    raise: if before.domains[target].event_irq_enabled {
                        Some(target as usize)
                    } else {
                        None
                    },
                },
                EventState { domains: accepted, channels: sent, ..before },
            )
        }
    }
}

/// Sends an event from the port in `arg0`.
pub fn event_send(
    domains: &mut Vec<RuntimeDomain>,
    runnable: &mut Vec<bool>,
    channels: &mut EventChannelTable,
    index: usize,
    exit: &VmExit,
) -> (r: EventSent)
    requires
        index < old(domains)@.len(),
        old(runnable)@.len() == old(domains)@.len(),
        old(channels).wf(),
    ensures
        final(channels).wf(),
        ({
            let (sent, after) = event_sent(
                EventState {
                    domains: old(domains)@,
                    runnable: old(runnable)@,
                    channels: old(channels)@,
                },
                index as int,
                *exit,
            );
            &&& r == sent
            &&& final(domains)@ == after.domains
            &&& final(runnable)@ == after.runnable
            &&& final(channels)@ == after.channels
        }),
{
    let mut runtime = domains[index];
    let sender = runtime.domain.id;
    let nothing = EventSent { delivery: None, raise: None };
    if exit.arg1 != 0 || exit.arg2 != 0 || exit.arg0 > 0xffff_ffff {
        runtime.pending_result = HYPERCALL_INVALID_ARGUMENT;
        domains.set(index, runtime);
        return nothing;
    }
    let delivery = match channels.send(sender, exit.arg0 as u32) {
        Ok(delivery) => delivery,
        Err(_) => {
            runtime.pending_result = HYPERCALL_INVALID_ARGUMENT;
            domains.set(index, runtime);
            return nothing;
        },
    };
    let running = match find_domain(domains, delivery.domain.value) {
        Some(target) => if domains[target].domain.state == DomainState::Running {
            Some(target)
        } else {
            None
        },
        None => None,
    };
    let target: usize = match running {
        Some(target) => target,
        None => {
            let _ = channels.receive(delivery.domain);
            runtime.pending_result = HYPERCALL_INVALID_ARGUMENT;
            domains.set(index, runtime);
            return nothing;
        },
    };
    let wakes = domains[target].waiting;
    let interrupts = domains[target].event_irq_enabled;
    runtime.pending_result = HYPERCALL_SUCCESS;
    domains.set(index, runtime);
    if wakes {
        let port: u32 = match channels.receive(delivery.domain) {
            Some(port) => port,
            None => delivery.port,
        };
        let mut woken = domains[target];
        woken.pending_result = port as u64;
        woken.waiting = false;
        domains.set(target, woken);
        runnable.set(target, true);
        EventSent { delivery: Some(delivery), raise: None }
    } else if interrupts {
        EventSent { delivery: Some(delivery), raise: Some(target) }
    } else {
        EventSent { delivery: Some(delivery), raise: None }
    }
}

/// Lets events interrupt the Domain from now on. Gives whether one waits already.
pub fn event_irq_enable(runtime: &mut RuntimeDomain, channels: &EventChannelTable, exit: &VmExit)
    -> (r: Option<bool>)
    ensures
        if !has_no_arguments(*exit) || old(runtime).event_irq_enabled {
            &&& r is None
            &&& *final(runtime) == answered(*old(runtime), HYPERCALL_INVALID_ARGUMENT)
        } else {
            &&& r == Some(event_of(channels@, old(runtime).domain.id, 0) < channels@.len())
            &&& *final(runtime) == (RuntimeDomain {
                event_irq_enabled: true,
                pending_result: HYPERCALL_SUCCESS,
                ..*old(runtime)
            })
        },
{
    if exit.arg0 != 0 || exit.arg1 != 0 || exit.arg2 != 0 || runtime.event_irq_enabled {
        runtime.pending_result = HYPERCALL_INVALID_ARGUMENT;
        return None;
    }
    runtime.event_irq_enabled = true;
    runtime.pending_result = HYPERCALL_SUCCESS;
    Some(channels.has_pending(runtime.domain.id))
}

/// Whether the Domain may end an interrupt: it gets some, from events or devices.
pub fn may_end_interrupt(
    runtime: &RuntimeDomain,
    assignments: &AssignmentTable,
    exit: &VmExit,
) -> (r: bool)
    ensures
        r == (has_no_arguments(*exit) && (runtime.event_irq_enabled || exists|i: int|
            0 <= i < 32 && (#[trigger] assignments@[i]).valid && assignments@[i].active
                && assignments@[i].domain_id == runtime.domain.id.value)),
{
    exit.arg0 == 0 && exit.arg1 == 0 && exit.arg2 == 0 && (runtime.event_irq_enabled
        || assignments.has_active_for_domain(runtime.domain.id.value))
}

/// An interrupt was ended, or none was there to end. Gives the vector to raise
/// again, because an event still waits.
pub fn irq_ended(runtime: &mut RuntimeDomain, channels: &EventChannelTable, completed: Option<u8>)
    -> (r: Option<u8>)
    ensures
        match completed {
            None => {
                &&& r is None
                &&& *final(runtime) == answered(*old(runtime), HYPERCALL_INVALID_ARGUMENT)
            },
            Some(vector) => {
                &&& r == (if vector == EVENT_CHANNEL_VECTOR && event_of(
                    channels@,
                    old(runtime).domain.id,
                    0,
                ) < channels@.len() {
                    Some(vector)
                } else {
                    None
                })
                &&& *final(runtime) == answered(*old(runtime), HYPERCALL_SUCCESS)
            },
        },
{
    match completed {
        None => {
            runtime.pending_result = HYPERCALL_INVALID_ARGUMENT;
            None
        },
        Some(vector) => {
            runtime.pending_result = HYPERCALL_SUCCESS;
            if vector == EVENT_CHANNEL_VECTOR && channels.has_pending(runtime.domain.id) {
                Some(vector)
            } else {
                None
            }
        },
    }
}

/// The vector in `arg0`, and whether it is masked from now on.
pub fn irq_mask_request(exit: &VmExit) -> (r: Option<(u8, bool)>)
    ensures
        r == (if exit.arg0 <= 0xff && exit.arg1 <= 1 && exit.arg2 == 0 {
            Some((exit.arg0 as u8, exit.arg1 == 1))
        } else {
            None
        }),
{
    if exit.arg0 <= 0xff && exit.arg1 <= 1 && exit.arg2 == 0 {
        Some((exit.arg0 as u8, exit.arg1 == 1))
    } else {
        None
    }
}

/// The task priority in `arg0`.
pub fn irq_priority_request(exit: &VmExit) -> (r: Option<u8>)
    ensures
        r == (if exit.arg0 <= 0xff && exit.arg1 == 0 && exit.arg2 == 0 {
            Some(exit.arg0 as u8)
        } else {
            None
        }),
{
    if exit.arg0 <= 0xff && exit.arg1 == 0 && exit.arg2 == 0 {
        Some(exit.arg0 as u8)
    } else {
        None
    }
}

/// Takes an event, if one waits.
pub fn event_poll(runtime: &mut RuntimeDomain, channels: &mut EventChannelTable, exit: &VmExit)
    requires
        old(channels).wf(),
    ensures
        final(channels).wf(),
        ({
            let (port, rest) = received(old(channels)@, old(runtime).domain.id);
            if !has_no_arguments(*exit) {
                &&& *final(runtime) == answered(*old(runtime), HYPERCALL_INVALID_ARGUMENT)
                &&& final(channels)@ == old(channels)@
            } else {
                &&& *final(runtime) == answered(
                    *old(runtime),
                    match port {
                        Some(port) => port as u64,
                        None => EVENT_CHANNEL_NO_EVENT,
                    },
                )
                &&& final(channels)@ == rest
            }
        }),
{
    if exit.arg0 != 0 || exit.arg1 != 0 || exit.arg2 != 0 {
        runtime.pending_result = HYPERCALL_INVALID_ARGUMENT;
        return;
    }
    runtime.pending_result = match channels.receive(runtime.domain.id) {
        Some(port) => port as u64,
        None => EVENT_CHANNEL_NO_EVENT,
    };
}

/// Takes an event, or sleeps until there is one. Gives whether the interrupt that
/// announced it has to be taken back.
pub fn event_wait(
    domains: &mut Vec<RuntimeDomain>,
    runnable: &mut Vec<bool>,
    channels: &mut EventChannelTable,
    index: usize,
    exit: &VmExit,
) -> (r: bool)
    requires
        index < old(domains)@.len(),
        old(runnable)@.len() == old(domains)@.len(),
        old(channels).wf(),
    ensures
        final(channels).wf(),
        ({
            let before = old(domains)@[index as int];
            let (port, rest) = received(old(channels)@, before.domain.id);
            if !has_no_arguments(*exit) {
                &&& !r
                &&& final(domains)@ == old(domains)@.update(
                    index as int,
                    answered(before, HYPERCALL_INVALID_ARGUMENT),
                )
                &&& final(runnable)@ == old(runnable)@
                &&& final(channels)@ == old(channels)@
            } else {
                match port {
                    Some(port) => {
                        &&& r
                        &&& final(domains)@ == old(domains)@.update(
                            index as int,
                            answered(before, port as u64),
                        )
                        &&& final(runnable)@ == old(runnable)@
                        &&& final(channels)@ == rest
                    },
                    None => {
                        &&& !r
                        &&& final(domains)@ == old(domains)@.update(
                            index as int,
                            RuntimeDomain { waiting: true, ..before },
                        )
                        &&& final(runnable)@ == old(runnable)@.update(index as int, false)
                        &&& final(channels)@ == old(channels)@
                    },
                }
            }
        }),
{
    let mut runtime = domains[index];
    if exit.arg0 != 0 || exit.arg1 != 0 || exit.arg2 != 0 {
        runtime.pending_result = HYPERCALL_INVALID_ARGUMENT;
        domains.set(index, runtime);
        return false;
    }
    match channels.receive(runtime.domain.id) {
        Some(port) => {
            runtime.pending_result = port as u64;
            domains.set(index, runtime);
            true
        },
        None => {
            runtime.waiting = true;
            domains.set(index, runtime);
            runnable.set(index, false);
            false
        },
    }
}

/// A Domain without the right learns nothing of the machine's devices, and cannot
/// take or give any.
pub proof fn law_devices_need_the_right(runtime: RuntimeDomain, exit: VmExit)
    requires
        runtime.domain.role != DomainRole::Hardware || runtime.domain.capabilities == 0,
    ensures
        !is_authorized(runtime, DOMAIN_CAPABILITY_DEVICE_QUERY),
        !is_authorized(runtime, DOMAIN_CAPABILITY_DEVICE_CLAIM),
{
    let none = 0u64;
    assert(none & 1 == 0 && none & 2 == 0) by (bit_vector)
        requires
            none == 0,
    ;
}

/// Whatever mBoot copies for a Domain goes to the Domain's own memory.
pub proof fn law_copies_stay_in_the_domain(runtime: RuntimeDomain, address: u64, len: u64)
    requires
        runtime.wf(),
        host_range(runtime, address, len) is Some,
    ensures
        ({
            let host = host_range(runtime, address, len)->0;
            let pages = runtime.domain.nested_pages@;
            pages.guest_base <= host && host + len <= pages.guest_base + 0x1000 * pages.guest_pages
        }),
{
}

/// A Domain that waits is woken by an event, with the port of an event as the
/// result of its wait, and its virtual CPU can run again.
pub proof fn law_event_wakes_a_waiting_domain(before: EventState, index: int, exit: VmExit)
    requires
        0 <= index < before.domains.len(),
        before.runnable.len() == before.domains.len(),
        ({
            let i = channel_of(
                before.channels,
                before.domains[index].domain.id,
                exit.arg0 as u32,
                0,
            );
            let peer = peer_of(
                before.channels[i],
                before.domains[index].domain.id,
                exit.arg0 as u32,
            );
            let target = index_of_domain(before.domains, peer.domain.value, 0);
            &&& exit.arg1 == 0
            &&& exit.arg2 == 0
            &&& exit.arg0 <= u32::MAX
            &&& i < before.channels.len()
            &&& 0 <= target < before.domains.len()
            &&& before.domains[target].domain.state == DomainState::Running
            &&& before.domains[target].waiting
        }),
    ensures
        ({
            let i = channel_of(
                before.channels,
                before.domains[index].domain.id,
                exit.arg0 as u32,
                0,
            );
            let peer = peer_of(
                before.channels[i],
                before.domains[index].domain.id,
                exit.arg0 as u32,
            );
            let target = index_of_domain(before.domains, peer.domain.value, 0);
            let (sent, after) = event_sent(before, index, exit);
            &&& sent.delivery is Some
            &&& after.runnable[target]
            &&& !after.domains[target].waiting
            &&& after.domains[target].pending_result <= u32::MAX
        }),
{
}

/// While a grant is mapped and not yet unmapped the Domain's own page is hidden;
/// after both the tables are as they were.
pub proof fn law_unmapped_grant_leaves_no_trace(
    runtime: RuntimeDomain,
    m: Map<int, u64>,
    n: Map<int, u64>,
    mapping: GrantMapping,
)
    requires
        runtime.wf(),
        runtime.domain.nested_pages@.is_mapped(m),
        is_ram_page(runtime.domain.nested_pages@, mapping.target_page),
        m[ram_slot(runtime.domain.nested_pages@, mapping.target_page)] == entry(
            runtime.domain.nested_pages@.guest_base + mapping.target_page,
            ram_flags(runtime.domain.nested_pages.spec_backend()),
        ),
        is_grant_mapped(runtime, m, n, mapping),
    ensures
        n.insert(
            ram_slot(runtime.domain.nested_pages@, mapping.target_page),
            entry(
                runtime.domain.nested_pages@.guest_base + mapping.target_page,
                ram_flags(runtime.domain.nested_pages.spec_backend()),
            ),
        ) == m,
{
    law_restore_undoes_share(
        runtime.domain.nested_pages.spec_backend(),
        runtime.domain.nested_pages@,
        m,
        mapping.target_page,
        mapping.host_page,
        mapping.writable,
    );
}

/// Only a Hardware Domain is authorized, and only for what its capabilities name: bit 0 to
/// list functions, bit 1 to claim them.
pub proof fn law_authorization_is_role_and_capability(runtime: RuntimeDomain)
    ensures
        is_authorized(runtime, DOMAIN_CAPABILITY_DEVICE_QUERY) <==> runtime.domain.role
            == DomainRole::Hardware && runtime.domain.capabilities & 1 != 0,
        is_authorized(runtime, DOMAIN_CAPABILITY_DEVICE_CLAIM) <==> runtime.domain.role
            == DomainRole::Hardware && runtime.domain.capabilities & 2 != 0,
{
}

/// A range of a Domain's memory is found exactly where it lies in that memory, and then at
/// the same distance from the start of the memory as from address zero of the guest.
pub proof fn law_range_is_found_at_its_distance(runtime: RuntimeDomain, address: u64, len: u64)
    requires
        runtime.wf(),
    ensures
        host_range(runtime, address, len) is Some <==> address + len <= 0x1000
            * runtime.domain.nested_pages@.guest_pages,
        host_range(runtime, address, len) matches Some(host) ==> host
            - runtime.domain.nested_pages@.guest_base == address,
{
}

/// A page is granted exactly where it is one of the grant window, no grant of another
/// Domain is mapped there, and then it is the Domain's own page at that address.
pub proof fn law_granted_page_is_the_grantors_own(
    runtime: RuntimeDomain,
    grants: &GrantTable,
    page: u64,
)
    requires
        runtime.wf(),
    ensures
        granted_page(runtime, grants, page) matches Some(host) ==> {
            &&& host - runtime.domain.nested_pages@.guest_base == page
            &&& page % 0x1000 == 0
            &&& page + 0x1000 <= 0x1000 * runtime.domain.nested_pages@.guest_pages
            &&& !is_mapped(grants@, runtime.domain.id, page as int, 1)
        },
        is_grant_page(runtime.memory_size(), page as int) && !is_mapped(
            grants@,
            runtime.domain.id,
            page as int,
            1,
        ) && page + 0x1000 <= u64::MAX ==> granted_page(runtime, grants, page) is Some,
{
}

/// Only the System and the Hardware Domain show pages, and a page is what stands in a
/// message behind the letters DISPLAY and a line feed.
pub proof fn law_page_follows_its_prefix(message: Seq<u8>, page: Seq<u8>)
    ensures
        may_show(DomainRole::System),
        may_show(DomainRole::Hardware),
        !may_show(DomainRole::Application),
        page_in(
            seq![0x44u8, 0x49u8, 0x53u8, 0x50u8, 0x4cu8, 0x41u8, 0x59u8, 0x0au8] + page,
        ) == Some(page),
        page_in(message) matches Some(rest) ==> message == seq![
            0x44u8,
            0x49u8,
            0x53u8,
            0x50u8,
            0x4cu8,
            0x41u8,
            0x59u8,
            0x0au8,
        ] + rest,
{
    let prefix = seq![0x44u8, 0x49u8, 0x53u8, 0x50u8, 0x4cu8, 0x41u8, 0x59u8, 0x0au8];
    assert(DISPLAY_PREFIX@ =~= prefix);
    assert((prefix + page).take(8) =~= prefix);
    assert((prefix + page).skip(8) =~= page);
    if page_in(message) is Some {
        assert(message =~= message.take(8) + message.skip(8));
    }
}

/// A grant that is mapped shows the granting Domain's page at the mapping's address, and
/// the tables of the target are the same everywhere else.
pub proof fn law_mapped_grant_shows_one_page(
    runtime: RuntimeDomain,
    before: Map<int, u64>,
    after: Map<int, u64>,
    mapping: GrantMapping,
    at: int,
)
    requires
        is_grant_mapped(runtime, before, after, mapping),
    ensures
        after.dom().contains(ram_slot(runtime.domain.nested_pages@, mapping.target_page)),
        after[ram_slot(runtime.domain.nested_pages@, mapping.target_page)] == mapping.host_page
            | shared_flags(runtime.domain.nested_pages.spec_backend(), mapping.writable),
        at != ram_slot(runtime.domain.nested_pages@, mapping.target_page) ==> (after.dom().contains(
            at,
        ) <==> before.dom().contains(at)) && after[at] == before[at],
{
}

/// Who an event from a port reaches: the other end of the sender's first channel with
/// that port.
pub open spec fn reached_end(before: EventState, index: int, port: u32) -> Endpoint {
    let sender = before.domains[index].domain.id;
    let c = before.channels[channel_of(before.channels, sender, port, 0)];
    if c.a.domain == sender && c.a.port == port {
        c.b
    } else {
        c.a
    }
}

/// Whether an event can be sent: the port is the only argument, it has a channel, and the
/// Domain at the other end runs.
pub open spec fn is_sendable(before: EventState, index: int, exit: VmExit) -> bool {
    let sender = before.domains[index].domain.id;
    let port = exit.arg0 as u32;
    let target = index_of_domain(
        before.domains,
        reached_end(before, index, port).domain.value,
        0,
    );
    &&& exit.arg0 <= 0xffff_ffff && exit.arg1 == 0 && exit.arg2 == 0
    &&& channel_of(before.channels, sender, port, 0) < before.channels.len()
    &&& target < before.domains.len()
    &&& before.domains[target].domain.state == DomainState::Running
}

/// An event that cannot be sent is answered with the invalid argument (all ones), reaches
/// and wakes nobody, and no other Domain notices; the channels change only where a
/// receiver that does not run had an event, which is dropped.
pub proof fn law_refused_event_reaches_nobody(before: EventState, index: int, exit: VmExit)
    requires
        0 <= index < before.domains.len(),
        before.runnable.len() == before.domains.len(),
        !is_sendable(before, index, exit),
    ensures
        ({
            let (sent, after) = event_sent(before, index, exit);
            &&& sent.delivery is None
            &&& sent.raise is None
            &&& after.runnable == before.runnable
            &&& after.domains.len() == before.domains.len()
            &&& after.domains[index] == (RuntimeDomain {
                pending_result: 0xffff_ffff_ffff_ffff,
                ..before.domains[index]
            })
            &&& forall|i: int|
                0 <= i < before.domains.len() && i != index ==> #[trigger] after.domains[i]
                    == before.domains[i]
            &&& exit.arg0 > 0xffff_ffff || exit.arg1 != 0 || exit.arg2 != 0 || channel_of(
                before.channels,
                before.domains[index].domain.id,
                exit.arg0 as u32,
                0,
            ) >= before.channels.len() ==> after.channels == before.channels
        }),
{
}

/// An event that can be sent is answered with success (zero) and reported with the other
/// end's Domain and port. A receiver that waits is woken and gets no interrupt; one that
/// does not keeps the event at its end and gets an interrupt exactly where it asked for
/// them. Nobody else changes.
pub proof fn law_sent_event_wakes_or_interrupts(before: EventState, index: int, exit: VmExit)
    requires
        0 <= index < before.domains.len(),
        before.runnable.len() == before.domains.len(),
        is_sendable(before, index, exit),
        forall|i: int|
            0 <= i < before.channels.len() ==> (#[trigger] before.channels[i]).a.domain
                != before.channels[i].b.domain,
    ensures
        ({
            let port = exit.arg0 as u32;
            let sender = before.domains[index].domain.id;
            let end = reached_end(before, index, port);
            let c = channel_of(before.channels, sender, port, 0);
            let target = index_of_domain(before.domains, end.domain.value, 0);
            let (sent, after) = event_sent(before, index, exit);
            &&& 0 <= target < before.domains.len()
            &&& sent.delivery == Some(
                EventDelivery {
                    domain: end.domain,
                    port: end.port,
                    first_delivery: !end.reached,
                },
            )
            &&& index != target ==> after.domains[index] == (RuntimeDomain {
                pending_result: 0,
                ..before.domains[index]
            })
            &&& forall|i: int|
                0 <= i < before.domains.len() && i != index && i != target
                    ==> #[trigger] after.domains[i] == before.domains[i] && after.runnable[i]
                    == before.runnable[i]
            &&& before.domains[target].waiting ==> sent.raise is None && after.runnable[target]
                && !after.domains[target].waiting
            &&& !before.domains[target].waiting ==> {
                &&& after.runnable == before.runnable
                &&& after.domains[target].waiting == false
                &&& target != index ==> after.domains[target] == before.domains[target]
                &&& sent.raise == (if before.domains[target].event_irq_enabled {
                    Some(target as usize)
                } else {
                    None
                })
                &&& after.channels.len() == before.channels.len()
                &&& has_event(after.channels[c], end.domain)
                &&& forall|i: int|
                    0 <= i < before.channels.len() && i != c ==> #[trigger] after.channels[i]
                        == before.channels[i]
            }
        }),
{
    let sender = before.domains[index].domain.id;
    law_port_is_looked_up_exactly(before.channels, sender, exit.arg0 as u32);
    let end = reached_end(before, index, exit.arg0 as u32);
    lemma_index_of_domain(before.domains, end.domain.value, 0);
}

proof fn lemma_index_of_domain(domains: Seq<RuntimeDomain>, id: u32, from: int)
    requires
        0 <= from <= domains.len(),
    ensures
        from <= index_of_domain(domains, id, from) <= domains.len(),
        index_of_domain(domains, id, from) < domains.len() ==> domains[index_of_domain(
            domains,
            id,
            from,
        )].domain.id.value == id,
        forall|i: int|
            from <= i < index_of_domain(domains, id, from) ==> (
            #[trigger] domains[i]).domain.id.value != id,
    decreases domains.len() - from,
{
    if from < domains.len() && domains[from].domain.id.value != id {
        lemma_index_of_domain(domains, id, from + 1);
    }
}

/// A Domain is found by its number exactly where one of the list has it, and then the
/// first that does.
pub proof fn law_domain_is_found_by_its_number(domains: Seq<RuntimeDomain>, id: u32)
    ensures
        index_of_domain(domains, id, 0) < domains.len() <==> exists|i: int|
            0 <= i < domains.len() && (#[trigger] domains[i]).domain.id.value == id,
        0 <= index_of_domain(domains, id, 0) <= domains.len(),
        index_of_domain(domains, id, 0) < domains.len() ==> domains[index_of_domain(
            domains,
            id,
            0,
        )].domain.id.value == id,
        forall|i: int|
            0 <= i < index_of_domain(domains, id, 0) ==> (#[trigger] domains[i]).domain.id.value
                != id,
{
    lemma_index_of_domain(domains, id, 0);
}

/// What a Domain receives is the port of its own end at which an event waited, and the
/// event is then gone from that end and nothing else changes. It receives nothing, and
/// nothing changes, exactly where no event waits for it.
pub proof fn law_received_port_had_an_event(s: Seq<EventChannel>, domain: DomainId)
    ensures
        received(s, domain).0 is None <==> forall|i: int|
            0 <= i < s.len() ==> !((#[trigger] s[i]).a.domain == domain && s[i].a.pending) && !(
            s[i].b.domain == domain && s[i].b.pending),
        received(s, domain).0 is None ==> received(s, domain).1 == s,
        received(s, domain).0 matches Some(port) ==> exists|i: int|
            0 <= i < s.len() && is_taken(#[trigger] s[i], received(s, domain).1[i], domain, port)
                && received(s, domain).1.len() == s.len() && forall|j: int|
                0 <= j < s.len() && j != i ==> #[trigger] received(s, domain).1[j] == s[j],
{
    law_received_event_is_the_domains_own(s, domain);
    let i = event_of(s, domain, 0);
    if i < s.len() {
        assert(is_taken(
            s[i],
            received(s, domain).1[i],
            domain,
            received(s, domain).0->0,
        ));
    }
}

/// Whether an event was taken from the Domain's end with this port.
pub open spec fn is_taken(
    before: EventChannel,
    after: EventChannel,
    domain: DomainId,
    port: u32,
) -> bool {
    if before.a.domain == domain && before.a.pending {
        port == before.a.port && !after.a.pending && after.a.domain == domain && after.a.port == port
            && after.a.reached == before.a.reached && after.b == before.b
    } else {
        before.b.domain == domain && before.b.pending && port == before.b.port && !after.b.pending
            && after.b.domain == domain && after.b.port == port && after.b.reached
            == before.b.reached && after.a == before.a
    }
}

} // verus!
