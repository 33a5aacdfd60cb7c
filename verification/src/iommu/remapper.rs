//! The state of the remapping units and the steps that change it.

use vstd::prelude::*;

use crate::physical::PhysicalMemory;
use super::{
    handles, validate_resources, Error, IommuKind, IommuResources, IommuTopology, ReservedMapping,
    TopologyView, DOMAIN_TABLE_PAGES, INTEL_TABLE_PAGES, MAX_DOMAIN_MAPPINGS,
};
use super::registers::{next_completion, next_tail, queue_amd_command, AMD_COMMAND_BUFFER_SIZE};
use super::tables::{
    allocated, amd_attachable, amd_detachable, attach_amd_requester, attach_intel_requester,
    context_at, detach_amd_requester, detach_intel_requester, device_at, device_entry,
    domain_mapped, intel_attached, intel_context, intel_context_high, intel_detachable,
    lemma_identity_keeps_arena, map_domain_memory, map_domain_reserved_identity, reserved_identity,
    with_device_entry, with_root_entry, TableArena, AMD_DTE_VALID, CONTEXT_ADDRESS, INTEL_PRESENT,
    PHYSICAL_LIMIT,
};

verus! {

/// The tables that a domain has on one unit.
#[derive(Clone, Copy, Debug, PartialEq, Eq, Structural)]
pub struct DomainMapping {
    pub domain_id: u16,
    pub root: u64,
    pub host_base: u64,
    pub size: u64,
}

/// What is known of one unit while it runs.
pub struct UnitRuntime {
    pub resources: IommuResources,
    pub enabled: bool,
    pub next_domain_page: usize,
    pub command_tail: usize,
    pub completion_value: u64,
    pub domains: Vec<DomainMapping>,
}

#[verifier::ext_equal]
pub struct RuntimeView {
    pub resources: IommuResources,
    pub enabled: bool,
    pub next_domain_page: usize,
    pub command_tail: usize,
    pub completion_value: u64,
    pub domains: Seq<DomainMapping>,
}

impl View for UnitRuntime {
    type V = RuntimeView;

    open spec fn view(&self) -> RuntimeView {
        RuntimeView {
            resources: self.resources,
            enabled: self.enabled,
            next_domain_page: self.next_domain_page,
            command_tail: self.command_tail,
            completion_value: self.completion_value,
            domains: self.domains@,
        }
    }
}

/// A unit with nothing in its tables.
pub open spec fn fresh_runtime(
    resources: IommuResources,
    enabled: bool,
    next_domain_page: usize,
) -> RuntimeView {
    RuntimeView {
        resources,
        enabled,
        next_domain_page,
        command_tail: 0,
        completion_value: 0,
        domains: Seq::empty(),
    }
}

/// The pages that the tables of domains are made of.
pub open spec fn domain_arena(kind: IommuKind, runtime: RuntimeView) -> TableArena {
    match kind {
        IommuKind::IntelVtd => TableArena {
            base: runtime.resources.remapping_table,
            next_page: runtime.next_domain_page,
            page_count: INTEL_TABLE_PAGES,
        },
        IommuKind::AmdVi => TableArena {
            base: runtime.resources.domain_tables,
            next_page: runtime.next_domain_page,
            page_count: DOMAIN_TABLE_PAGES,
        },
    }
}

/// The tables of a unit are owned.
pub open spec fn is_unit_owned(kind: IommuKind, runtime: RuntimeView, m: Map<int, u64>) -> bool {
    &&& domain_arena(kind, runtime).wf(m)
    &&& runtime.resources.remapping_table % 0x1000 == 0
    &&& runtime.resources.remapping_table < PHYSICAL_LIMIT
}

/// The tables of a unit are owned, and what is known of it fits.
pub open spec fn unit_wf(kind: IommuKind, runtime: RuntimeView, m: Map<int, u64>) -> bool {
    &&& is_unit_owned(kind, runtime, m)
    &&& runtime.domains.len() <= MAX_DOMAIN_MAPPINGS
    &&& forall|i: int|
        0 <= i < runtime.domains.len() ==> (#[trigger] runtime.domains[i]).root % 0x1000 == 0
}

/// A unit and memory after an edit, and what came of it.
#[verifier::ext_equal]
pub struct Prepared {
    pub result: Result<u64, Error>,
    pub memory: Map<int, u64>,
    pub runtime: RuntimeView,
}

/// Where a domain is among those of a unit, counted from `i` on.
pub open spec fn find_domain(domains: Seq<DomainMapping>, domain_id: u16, i: int) -> Option<int>
    decreases domains.len() - i,
{
    if i < 0 || i >= domains.len() {
        None
    } else if domains[i].domain_id == domain_id {
        Some(i)
    } else {
        find_domain(domains, domain_id, i + 1)
    }
}

/// The tables of a domain: the ones it has, or new ones for its memory.
pub open spec fn domain_ensured(
    kind: IommuKind,
    m: Map<int, u64>,
    runtime: RuntimeView,
    domain_id: u16,
    host_base: u64,
    size: u64,
) -> Prepared {
    match find_domain(runtime.domains, domain_id, 0) {
        Some(i) => {
            let known = runtime.domains[i];
            Prepared {
                result: if known.host_base == host_base && known.size == size {
                    Ok(known.root)
                } else {
                    Err(Error::InvalidResources)
                },
                memory: m,
                runtime,
            }
        },
        None => if runtime.domains.len() >= MAX_DOMAIN_MAPPINGS {
            Prepared { result: Err(Error::TableExhausted), memory: m, runtime }
        } else {
            let fresh = allocated(m, domain_arena(kind, runtime));
            match fresh.result {
                Err(e) => Prepared { result: Err(e), memory: fresh.memory, runtime },
                Ok(root) => {
                    let mapped = domain_mapped(
                        kind,
                        fresh.memory,
                        fresh.arena,
                        root,
                        host_base as int,
                        0,
                        size as int,
                    );
                    match mapped.result {
                        Err(e) => Prepared { result: Err(e), memory: mapped.memory, runtime },
                        Ok(_) => Prepared {
                            result: Ok(root),
                            memory: mapped.memory,
                            runtime: RuntimeView {
                                next_domain_page: mapped.arena.next_page,
                                domains: runtime.domains.push(
                                    DomainMapping { domain_id, root, host_base, size },
                                ),
                                ..runtime
                            },
                        },
                    }
                },
            }
        },
    }
}

/// A reserved range of the requester, as it concerns a domain of this size.
pub open spec fn concerns(mapping: ReservedMapping, segment: u16, requester: u16) -> bool {
    mapping.segment == segment && mapping.requester == requester
}

/// The first `n` reserved ranges of the requester added to the tables of its
/// domain. The result is how many there were.
pub open spec fn ranges_preserved(
    m: Map<int, u64>,
    runtime: RuntimeView,
    root: u64,
    mappings: Seq<ReservedMapping>,
    n: int,
    segment: u16,
    requester: u16,
    size: u64,
) -> Prepared
    decreases n,
{
    if n <= 0 {
        Prepared { result: Ok(0), memory: m, runtime }
    } else {
        let before = ranges_preserved(m, runtime, root, mappings, n - 1, segment, requester, size);
        let mapping = mappings[n - 1];
        match before.result {
            Err(_) => before,
            Ok(count) => if !concerns(mapping, segment, requester) {
                before
            } else if mapping.base < size {
                Prepared { result: Err(Error::ReservedDevice), ..before }
            } else {
                let edited = reserved_identity(
                    before.memory,
                    domain_arena(IommuKind::IntelVtd, before.runtime),
                    root,
                    mapping.base as int,
                    mapping.limit as int,
                );
                match edited.result {
                    Err(e) => Prepared {
                        result: Err(e),
                        memory: edited.memory,
                        runtime: before.runtime,
                    },
                    Ok(_) => Prepared {
                        result: Ok((count + 1) as u64),
                        memory: edited.memory,
                        runtime: RuntimeView {
                            next_domain_page: edited.arena.next_page,
                            ..before.runtime
                        },
                    },
                }
            },
        }
    }
}

fn runtime_arena(kind: IommuKind, runtime: &UnitRuntime) -> (r: TableArena)
    ensures
        r == domain_arena(kind, runtime@),
{
    match kind {
        IommuKind::IntelVtd => TableArena {
            base: runtime.resources.remapping_table,
            next_page: runtime.next_domain_page,
            page_count: INTEL_TABLE_PAGES,
        },
        IommuKind::AmdVi => TableArena {
            base: runtime.resources.domain_tables,
            next_page: runtime.next_domain_page,
            page_count: DOMAIN_TABLE_PAGES,
        },
    }
}

/// Finds the tables of a domain on a unit, or makes them.
pub fn ensure_domain_mapping(
    kind: IommuKind,
    memory: &mut PhysicalMemory,
    runtime: &mut UnitRuntime,
    domain_id: u16,
    host_base: u64,
    size: u64,
) -> (r: Result<u64, Error>)
    requires
        old(memory).wf(),
        unit_wf(kind, old(runtime)@, old(memory)@),
        size % 0x1000 == 0,
        host_base + size <= u64::MAX,
    ensures
        final(memory).wf(),
        unit_wf(kind, final(runtime)@, final(memory)@),
        (Prepared { result: r, memory: final(memory)@, runtime: final(runtime)@ })
            == domain_ensured(
            kind,
            old(memory)@,
            old(runtime)@,
            domain_id,
            host_base,
            size,
        ),
        r matches Ok(root) ==> root % 0x1000 == 0,
{
    let mut i: usize = 0;
    while i < runtime.domains.len()
        invariant
            *runtime == *old(runtime),
            memory.wf(),
            memory@ == old(memory)@,
            unit_wf(kind, runtime@, memory@),
            i <= runtime.domains@.len(),
            find_domain(runtime.domains@, domain_id, 0) == find_domain(
                runtime.domains@,
                domain_id,
                i as int,
            ),
        decreases runtime.domains@.len() - i,
    {
        let known = runtime.domains[i];
        if known.domain_id == domain_id {
            assert(runtime@.domains[i as int].root % 0x1000 == 0);
            return if known.host_base == host_base && known.size == size {
                Ok(known.root)
            } else {
                Err(Error::InvalidResources)
            };
        }
        i += 1;
    }
    if runtime.domains.len() >= MAX_DOMAIN_MAPPINGS {
        return Err(Error::TableExhausted);
    }
    let mut arena = runtime_arena(kind, runtime);
    let root: u64 = arena.allocate(memory)?;
    proof {
        lemma_domain_keeps_arena(kind, old(memory)@, old(runtime)@, host_base, size);
    }
    map_domain_memory(kind, memory, root, host_base, size, &mut arena)?;
    runtime.next_domain_page = arena.next_page;
    runtime.domains.push(DomainMapping { domain_id, root, host_base, size });
    Ok(root)
}

proof fn lemma_mapped_keeps_arena(
    kind: IommuKind,
    m: Map<int, u64>,
    arena: TableArena,
    level4: u64,
    host_base: int,
    iova: int,
    size: int,
)
    requires
        arena.next_page <= arena.page_count,
    ensures
        ({
            let after = domain_mapped(kind, m, arena, level4, host_base, iova, size).arena;
            &&& after.base == arena.base
            &&& after.page_count == arena.page_count
            &&& arena.next_page <= after.next_page <= arena.page_count
        }),
    decreases
            (if size > iova {
                size - iova
            } else {
                0
            }),
{
    if iova < size {
        let step = super::tables::domain_step(kind, m, arena, level4, host_base, iova);
        assert(step.arena.base == arena.base && step.arena.page_count == arena.page_count
            && arena.next_page <= step.arena.next_page <= arena.page_count) by {
            reveal(super::tables::domain_step);
        }
        if step.result is Ok {
            lemma_mapped_keeps_arena(
                kind,
                step.memory,
                step.arena,
                level4,
                host_base,
                iova + 0x1000,
                size,
            );
        }
    }
}

proof fn lemma_domain_keeps_arena(
    kind: IommuKind,
    m: Map<int, u64>,
    runtime: RuntimeView,
    host_base: u64,
    size: u64,
)
    requires
        domain_arena(kind, runtime).next_page <= domain_arena(kind, runtime).page_count,
    ensures
        ({
            let arena = domain_arena(kind, runtime);
            let fresh = allocated(m, arena);
            fresh.result matches Ok(root) ==> {
                let after = domain_mapped(
                    kind,
                    fresh.memory,
                    fresh.arena,
                    root,
                    host_base as int,
                    0,
                    size as int,
                ).arena;
                &&& after.base == arena.base
                &&& after.page_count == arena.page_count
                &&& arena.next_page <= after.next_page <= arena.page_count
            }
        }),
{
    let fresh = allocated(m, domain_arena(kind, runtime));
    if let Ok(root) = fresh.result {
        lemma_mapped_keeps_arena(
            kind,
            fresh.memory,
            fresh.arena,
            root,
            host_base as int,
            0,
            size as int,
        );
    }
}

proof fn lemma_reserved_keeps_arena(
    m: Map<int, u64>,
    arena: TableArena,
    root: u64,
    base: int,
    limit: int,
)
    requires
        arena.next_page <= arena.page_count,
    ensures
        ({
            let after = reserved_identity(m, arena, root, base, limit).arena;
            &&& after.base == arena.base
            &&& after.page_count == arena.page_count
            &&& arena.next_page <= after.next_page <= arena.page_count
        }),
{
    lemma_identity_keeps_arena(m, arena, root, base, limit + 1);
}

/// Once a range was refused, so is the rest.
proof fn lemma_refused(
    m: Map<int, u64>,
    runtime: RuntimeView,
    root: u64,
    mappings: Seq<ReservedMapping>,
    n: int,
    k: int,
    segment: u16,
    requester: u16,
    size: u64,
)
    requires
        0 <= n <= k,
        ranges_preserved(m, runtime, root, mappings, n, segment, requester, size).result is Err,
    ensures
        ranges_preserved(m, runtime, root, mappings, k, segment, requester, size)
            == ranges_preserved(m, runtime, root, mappings, n, segment, requester, size),
    decreases k,
{
    if n < k {
        lemma_refused(m, runtime, root, mappings, n, k - 1, segment, requester, size);
    }
}

/// Adds the reserved ranges of a requester to the tables of its domain, and says
/// how many there are. They must not overlap the domain's own addresses, which
/// start at zero.
pub fn preserve_reserved_ranges(
    memory: &mut PhysicalMemory,
    runtime: &mut UnitRuntime,
    root: u64,
    mappings: &[ReservedMapping],
    segment: u16,
    requester: u16,
    size: u64,
) -> (r: Result<u64, Error>)
    requires
        old(memory).wf(),
        unit_wf(IommuKind::IntelVtd, old(runtime)@, old(memory)@),
        root % 0x1000 == 0,
    ensures
        final(memory).wf(),
        unit_wf(IommuKind::IntelVtd, final(runtime)@, final(memory)@),
        (Prepared { result: r, memory: final(memory)@, runtime: final(runtime)@ })
            == ranges_preserved(
            old(memory)@,
            old(runtime)@,
            root,
            mappings@,
            mappings@.len() as int,
            segment,
            requester,
            size,
        ),
{
    let mut i: usize = 0;
    let mut count: u64 = 0;
    while i < mappings.len()
        invariant
            i <= mappings.len(),
            count <= i,
            memory.wf(),
            unit_wf(IommuKind::IntelVtd, runtime@, memory@),
            root % 0x1000 == 0,
            (Prepared { result: Ok(count), memory: memory@, runtime: runtime@ })
                == ranges_preserved(
                old(memory)@,
                old(runtime)@,
                root,
                mappings@,
                i as int,
                segment,
                requester,
                size,
            ),
        decreases mappings@.len() - i,
    {
        let mapping = mappings[i];
        if mapping.segment == segment && mapping.requester == requester {
            if mapping.base < size {
                proof {
                    lemma_refused(
                        old(memory)@,
                        old(runtime)@,
                        root,
                        mappings@,
                        i + 1,
                        mappings@.len() as int,
                        segment,
                        requester,
                        size,
                    );
                }
                return Err(Error::ReservedDevice);
            }
            let mut arena = runtime_arena(IommuKind::IntelVtd, runtime);
            proof {
                lemma_reserved_keeps_arena(
                    memory@,
                    arena,
                    root,
                    mapping.base as int,
                    mapping.limit as int,
                );
            }
            match map_domain_reserved_identity(
                memory,
                &mut arena,
                root,
                mapping.base,
                mapping.limit,
            ) {
                Ok(_) => {
                    runtime.next_domain_page = arena.next_page;
                    count += 1;
                },
                Err(error) => {
                    proof {
                        lemma_refused(
                            old(memory)@,
                            old(runtime)@,
                            root,
                            mappings@,
                            i + 1,
                            mappings@.len() as int,
                            segment,
                            requester,
                            size,
                        );
                    }
                    return Err(error);
                },
            }
        }
        i += 1;
    }
    Ok(count)
}

/// The remapping units of the machine and their state.
pub struct DmaRemapper {
    topology: IommuTopology,
    units: Vec<UnitRuntime>,
}

#[verifier::ext_equal]
pub struct RemapperView {
    pub topology: TopologyView,
    pub units: Seq<RuntimeView>,
}

impl View for DmaRemapper {
    type V = RemapperView;

    closed spec fn view(&self) -> RemapperView {
        RemapperView {
            topology: self.topology@,
            units: self.units@.map_values(|u: UnitRuntime| u@),
        }
    }
}

/// A unit that is under control and authoritative for the requester.
pub open spec fn unit_handles(v: RemapperView, index: int, segment: u16, requester: u16) -> bool {
    v.units[index].enabled && handles(v.topology, index, segment, requester)
}

/// The units among the first `n` that handle a requester, in order.
pub open spec fn handling(v: RemapperView, n: int, segment: u16, requester: u16) -> Seq<usize>
    decreases n,
{
    if n <= 0 {
        Seq::empty()
    } else if unit_handles(v, n - 1, segment, requester) {
        handling(v, n - 1, segment, requester).push((n - 1) as usize)
    } else {
        handling(v, n - 1, segment, requester)
    }
}

/// The units among the first `n` that were left to firmware for a requester.
pub open spec fn deferred(v: RemapperView, n: int, segment: u16, requester: u16) -> Seq<usize>
    decreases n,
{
    if n <= 0 {
        Seq::empty()
    } else if !v.units[n - 1].enabled && handles(v.topology, n - 1, segment, requester) {
        deferred(v, n - 1, segment, requester).push((n - 1) as usize)
    } else {
        deferred(v, n - 1, segment, requester)
    }
}

/// The identifier of a domain in the tables, if it fits and is not zero.
pub open spec fn table_domain(domain_id: u32) -> Result<u16, Error> {
    if domain_id == 0 || domain_id > 0xffff {
        Err(Error::DomainIdUnavailable)
    } else {
        Ok(domain_id as u16)
    }
}

pub fn check_domain_id(domain_id: u32) -> (r: Result<u16, Error>)
    ensures
        r == table_domain(domain_id),
{
    if domain_id == 0 || domain_id > 0xffff {
        Err(Error::DomainIdUnavailable)
    } else {
        Ok(domain_id as u16)
    }
}

/// The memory of a domain that a requester may be given.
pub open spec fn is_assignable(requester: u16, host_base: u64, size: u64) -> bool {
    &&& requester != 0
    &&& host_base != 0 && host_base % 0x1000 == 0
    &&& size != 0 && size % 0x1000 == 0
    &&& host_base + size <= u64::MAX
}

/// What an assignment does next.
#[derive(Clone, Copy, Debug, PartialEq, Eq, Structural)]
pub enum AssignPhase {
    /// Find or make the domain's tables on a unit.
    Prepare { at: usize },
    /// Take the requester out of the domain that firmware's ranges were kept in.
    Release { at: usize, root: u64 },
    /// Connect the requester.
    Attach { at: usize, root: u64 },
    /// Disconnect the requester, because of the error.
    Undo { at: usize, error: Error },
    Succeeded,
    Refused(Error),
}

/// What came of the last step of an assignment.
#[derive(Clone, Copy, Debug, PartialEq, Eq, Structural)]
pub enum AssignOutcome {
    Prepared { root: u64, reserved: bool },
    Done,
    Failed(Error),
}

pub open spec fn undo_phase(units: int, at: int, error: Error) -> AssignPhase {
    if at < units {
        AssignPhase::Undo { at: at as usize, error }
    } else {
        AssignPhase::Refused(error)
    }
}

/// The phase behind another, for a requester that `units` units handle.
pub open spec fn next_phase(units: int, phase: AssignPhase, outcome: AssignOutcome) -> AssignPhase {
    match phase {
        AssignPhase::Prepare { at } => match outcome {
            AssignOutcome::Prepared { root, reserved } => if reserved {
                AssignPhase::Release { at, root }
            } else {
                AssignPhase::Attach { at, root }
            },
            AssignOutcome::Failed(error) => undo_phase(units, 0, error),
            AssignOutcome::Done => phase,
        },
        AssignPhase::Release { at, root } => match outcome {
            AssignOutcome::Done => AssignPhase::Attach { at, root },
            AssignOutcome::Failed(error) => AssignPhase::Refused(error),
            AssignOutcome::Prepared { .. } => phase,
        },
        AssignPhase::Attach { at, .. } => match outcome {
            AssignOutcome::Done => if at + 1 < units {
                AssignPhase::Prepare { at: (at + 1) as usize }
            } else {
                AssignPhase::Succeeded
            },
            AssignOutcome::Failed(error) => undo_phase(units, 0, error),
            AssignOutcome::Prepared { .. } => phase,
        },
        AssignPhase::Undo { at, error } => match outcome {
            AssignOutcome::Done => undo_phase(units, at + 1, error),
            AssignOutcome::Failed(_) => AssignPhase::Refused(error),
            AssignOutcome::Prepared { .. } => phase,
        },
        AssignPhase::Succeeded => phase,
        AssignPhase::Refused(_) => phase,
    }
}

impl AssignPhase {
    /// The first phase, for a requester that `units` units handle.
    pub fn first(units: usize) -> (r: Self)
        ensures
            r == (if units == 0 {
                AssignPhase::Refused(Error::DeviceNotCovered)
            } else {
                AssignPhase::Prepare { at: 0 }
            }),
    {
        if units == 0 {
            AssignPhase::Refused(Error::DeviceNotCovered)
        } else {
            AssignPhase::Prepare { at: 0 }
        }
    }

    /// The phase behind this one.
    pub fn next(self, units: usize, outcome: AssignOutcome) -> (r: Self)
        requires
            match self {
                AssignPhase::Attach { at, .. } => at < units,
                AssignPhase::Undo { at, .. } => at < units,
                _ => true,
            },
        ensures
            r == next_phase(units as int, self, outcome),
    {
        match (self, outcome) {
            (
                AssignPhase::Prepare { at },
                AssignOutcome::Prepared { root, reserved },
            ) => if reserved {
                AssignPhase::Release { at, root }
            } else {
                AssignPhase::Attach { at, root }
            },
            (
                AssignPhase::Release { at, root },
                AssignOutcome::Done,
            ) => AssignPhase::Attach { at, root },
            (
                AssignPhase::Release { .. },
                AssignOutcome::Failed(error),
            ) => AssignPhase::Refused(error),
            (AssignPhase::Attach { at, .. }, AssignOutcome::Done) => if at + 1 < units {
                AssignPhase::Prepare { at: at + 1 }
            } else {
                AssignPhase::Succeeded
            },
            (AssignPhase::Undo { at, error }, AssignOutcome::Done) => if at + 1 < units {
                AssignPhase::Undo { at: at + 1, error }
            } else {
                AssignPhase::Refused(error)
            },
            (
                AssignPhase::Undo { error, .. },
                AssignOutcome::Failed(_),
            ) => AssignPhase::Refused(error),
            (AssignPhase::Prepare { .. }, AssignOutcome::Failed(error)) => if units > 0 {
                AssignPhase::Undo { at: 0, error }
            } else {
                AssignPhase::Refused(error)
            },
            (AssignPhase::Attach { .. }, AssignOutcome::Failed(error)) => if units > 0 {
                AssignPhase::Undo { at: 0, error }
            } else {
                AssignPhase::Refused(error)
            },
            _ => self,
        }
    }
}

/// An assignment succeeds only by connecting the last of the units.
pub proof fn law_assignment_succeeds_on_every_unit(
    units: int,
    phase: AssignPhase,
    outcome: AssignOutcome,
)
    requires
        next_phase(units, phase, outcome) == AssignPhase::Succeeded,
        phase != AssignPhase::Succeeded,
    ensures
        phase matches AssignPhase::Attach { at, .. } && at + 1 >= units,
        outcome == AssignOutcome::Done,
{
}

/// The phase after `n` steps that all went well.
pub open spec fn phase_after(units: int, phase: AssignPhase, n: int) -> AssignPhase
    decreases n,
{
    if n <= 0 {
        phase
    } else {
        next_phase(units, phase_after(units, phase, n - 1), AssignOutcome::Done)
    }
}

/// When a unit cannot be prepared or connected, the requester is disconnected
/// from every unit that handles it, first to last, and the error is reported.
pub proof fn law_failed_assignment_is_undone(
    units: int,
    phase: AssignPhase,
    error: Error,
    n: int,
)
    requires
        0 < units <= usize::MAX,
        phase is Prepare || phase is Attach,
        0 <= n <= units,
    ensures
        ({
            let undo = next_phase(units, phase, AssignOutcome::Failed(error));
            phase_after(units, undo, n) == (if n < units {
                AssignPhase::Undo { at: n as usize, error }
            } else {
                AssignPhase::Refused(error)
            })
        }),
    decreases n,
{
    if n > 0 {
        law_failed_assignment_is_undone(units, phase, error, n - 1);
    }
}

/// An assignment under way.
pub struct Assignment {
    pub domain_id: u16,
    pub units: Vec<usize>,
    pub phase: AssignPhase,
}

/// Whether a unit is left to firmware for the sake of the boot display.
pub open spec fn is_deferred(t: TopologyView, index: int, deferred_requester: Option<u16>) -> bool {
    t.kind == IommuKind::IntelVtd && match deferred_requester {
        Some(requester) => handles(t, index, 0, requester),
        None => false,
    }
}

fn unit_deferred(
    topology: &IommuTopology,
    index: usize,
    deferred_requester: Option<u16>,
) -> (r: bool)
    requires
        index < topology@.units.len(),
    ensures
        r == is_deferred(topology@, index as int, deferred_requester),
{
    if topology.kind() != IommuKind::IntelVtd {
        return false;
    }
    match deferred_requester {
        Some(requester) => topology.unit_handles_requester(index, 0, requester),
        None => false,
    }
}

impl DmaRemapper {
    /// There is a state for every unit.
    pub closed spec fn wf(&self) -> bool {
        self.topology.wf() && self.units@.len() == self@.topology.units.len()
    }

    proof fn lemma_view(&self)
        requires
            self.wf(),
        ensures
            self@.units.len() == self@.topology.units.len() == self.units@.len(),
            forall|i: int|
                0 <= i < self.units@.len() ==> #[trigger] self@.units[i] == self.units@[i]@,
    {
    }

    /// Takes the units of the machine, none of which is under control yet.
    pub fn initialize(
        topology: IommuTopology,
        resources: &[IommuResources],
    ) -> (r: Result<Self, Error>)
        requires
            topology.wf(),
        ensures
            match r {
                Ok(remapper) => {
                    &&& resources@.len() == topology@.units.len()
                    &&& remapper.wf()
                    &&& remapper@.topology == topology@
                    &&& remapper@.units == resources@.map_values(
                        |x: IommuResources| fresh_runtime(x, false, 0),
                    )
                },
                Err(e) => resources@.len() != topology@.units.len() && e == Error::InvalidResources,
            },
    {
        if resources.len() != topology.unit_count() {
            return Err(Error::InvalidResources);
        }
        let mut units: Vec<UnitRuntime> = Vec::new();
        let mut i: usize = 0;
        while i < resources.len()
            invariant
                i <= resources@.len(),
                units@.len() == i,
                forall|j: int|
                    0 <= j < i ==> (#[trigger] units@[j])@ == fresh_runtime(
                        resources@[j],
                        false,
                        0,
                    ),
            decreases resources@.len() - i,
        {
            let unit = UnitRuntime {
                resources: resources[i],
                enabled: false,
                next_domain_page: 0,
                command_tail: 0,
                completion_value: 0,
                domains: Vec::new(),
            };
            assert(unit@ =~= fresh_runtime(resources@[i as int], false, 0));
            units.push(unit);
            i += 1;
        }
        let remapper = DmaRemapper { topology, units };
        assert(remapper@.units =~= resources@.map_values(
            |x: IommuResources| fresh_runtime(x, false, 0),
        ));
        Ok(remapper)
    }

    /// Checks the pages of a unit, and says whether it is to be taken over now.
    pub fn plan_unit(
        &self,
        index: usize,
        deferred_requester: Option<u16>,
    ) -> (r: Result<bool, Error>)
        requires
            self.wf(),
            index < self@.units.len(),
        ensures
            r == (if !self@.units[index as int].resources.is_valid(self@.topology.kind) {
                Err::<bool, Error>(Error::InvalidResources)
            } else {
                Ok(!is_deferred(self@.topology, index as int, deferred_requester))
            }),
    {
        proof {
            self.lemma_view();
        }
        validate_resources(self.topology.kind(), &self.units[index].resources)?;
        Ok(!unit_deferred(&self.topology, index, deferred_requester))
    }

    /// Records that a unit is under control, with its first free page.
    pub fn enable_unit(&mut self, index: usize, next_domain_page: usize)
        requires
            old(self).wf(),
            index < old(self)@.units.len(),
        ensures
            final(self).wf(),
            final(self)@ == (RemapperView {
                units: old(self)@.units.update(
                    index as int,
                    fresh_runtime(
                        old(self)@.units[index as int].resources,
                        true,
                        next_domain_page,
                    ),
                ),
                ..old(self)@
            }),
            forall|m: Map<int, u64>|
                is_unit_owned(old(self)@.topology.kind, final(self)@.units[index as int], m)
                    ==> #[trigger] unit_wf(
                    old(self)@.topology.kind,
                    final(self)@.units[index as int],
                    m,
                ),
    {
        proof {
            self.lemma_view();
        }
        let unit = UnitRuntime {
            resources: self.units[index].resources,
            enabled: true,
            next_domain_page,
            command_tail: 0,
            completion_value: 0,
            domains: Vec::new(),
        };
        assert(unit@ =~= fresh_runtime(
            old(self)@.units[index as int].resources,
            true,
            next_domain_page,
        ));
        self.units[index] = unit;
        assert(self@.units =~= old(self)@.units.update(index as int, unit@));
    }

    /// The units that handle a requester, in order.
    pub fn handling_units(&self, segment: u16, requester: u16) -> (r: Vec<usize>)
        requires
            self.wf(),
        ensures
            r@ == handling(self@, self@.units.len() as int, segment, requester),
    {
        proof {
            self.lemma_view();
        }
        let mut found: Vec<usize> = Vec::new();
        let mut i: usize = 0;
        while i < self.units.len()
            invariant
                self.wf(),
                self@.units.len() == self@.topology.units.len() == self.units@.len(),
                forall|j: int|
                    0 <= j < self.units@.len() ==> #[trigger] self@.units[j] == self.units@[j]@,
                i <= self.units@.len(),
                found@ == handling(self@, i as int, segment, requester),
            decreases self.units@.len() - i,
        {
            assert(self@.units[i as int] == self.units@[i as int]@);
            if self.units[i].enabled && self.topology.unit_handles_requester(
                i,
                segment,
                requester,
            ) {
                found.push(i);
            }
            i += 1;
        }
        found
    }

    /// Begins to connect a requester to a domain whose memory starts at device
    /// address zero.
    pub fn assign(
        &self,
        segment: u16,
        requester: u16,
        domain_id: u32,
        host_base: u64,
        size: u64,
    ) -> (r: Result<Assignment, Error>)
        requires
            self.wf(),
        ensures
            match table_domain(domain_id) {
                Err(e) => r == Err::<Assignment, Error>(e),
                Ok(id) => if !is_assignable(requester, host_base, size) {
                    r == Err::<Assignment, Error>(Error::InvalidResources)
                } else {
                    let units = handling(
                        self@,
                        self@.units.len() as int,
                        segment,
                        requester,
                    );
                    r matches Ok(a) && a.domain_id == id && a.units@ == units && a.phase == (
                    if units.len() == 0 {
                        AssignPhase::Refused(Error::DeviceNotCovered)
                    } else {
                        AssignPhase::Prepare { at: 0 }
                    })
                },
            },
    {
        let id: u16 = check_domain_id(domain_id)?;
        if requester == 0 || host_base == 0 || host_base % 0x1000 != 0 || size == 0 || size % 0x1000
            != 0 || host_base > u64::MAX - size {
            return Err(Error::InvalidResources);
        }
        let units = self.handling_units(segment, requester);
        let phase = AssignPhase::first(units.len());
        Ok(Assignment { domain_id: id, units, phase })
    }

    /// Begins to disconnect a requester: the domain in the tables, and the units.
    pub fn detach(
        &self,
        segment: u16,
        requester: u16,
        domain_id: u32,
    ) -> (r: Result<(u16, Vec<usize>), Error>)
        requires
            self.wf(),
        ensures
            match table_domain(domain_id) {
                Err(e) => r == Err::<(u16, Vec<usize>), Error>(e),
                Ok(id) => {
                    let units = handling(
                        self@,
                        self@.units.len() as int,
                        segment,
                        requester,
                    );
                    if units.len() == 0 {
                        r == Err::<(u16, Vec<usize>), Error>(Error::DeviceNotCovered)
                    } else {
                        r matches Ok(d) && d.0 == id && d.1@ == units
                    }
                },
            },
    {
        let id: u16 = check_domain_id(domain_id)?;
        let units = self.handling_units(segment, requester);
        if units.len() == 0 {
            return Err(Error::DeviceNotCovered);
        }
        Ok((id, units))
    }

    /// The units that firmware kept for a display and that are to be taken over.
    pub fn take_over_deferred_display(
        &self,
        segment: u16,
        requester: u16,
    ) -> (r: Result<Vec<usize>, Error>)
        requires
            self.wf(),
        ensures
            ({
                let t = self@.topology;
                let n = self@.units.len() as int;
                if t.kind != IommuKind::IntelVtd || requester == 0 {
                    r matches Ok(units) && units@ == Seq::<usize>::empty()
                } else if !super::is_covered(t, segment, requester) {
                    r == Err::<Vec<usize>, Error>(Error::DeviceNotCovered)
                } else {
                    r matches Ok(units) && units@ == deferred(self@, n, segment, requester)
                }
            }),
    {
        proof {
            self.lemma_view();
        }
        if self.topology.kind() != IommuKind::IntelVtd || requester == 0 {
            return Ok(Vec::new());
        }
        let mut found: Vec<usize> = Vec::new();
        let mut matched = false;
        let mut i: usize = 0;
        while i < self.units.len()
            invariant
                self.wf(),
                self@.units.len() == self@.topology.units.len() == self.units@.len(),
                forall|j: int|
                    0 <= j < self.units@.len() ==> #[trigger] self@.units[j] == self.units@[j]@,
                i <= self.units@.len(),
                matched == exists|j: int|
                    0 <= j < i && #[trigger] handles(self@.topology, j, segment, requester),
                found@ == deferred(self@, i as int, segment, requester),
            decreases self.units@.len() - i,
        {
            assert(self@.units[i as int] == self.units@[i as int]@);
            if self.topology.unit_handles_requester(i, segment, requester) {
                matched = true;
                if !self.units[i].enabled {
                    found.push(i);
                }
            }
            i += 1;
        }
        if matched {
            Ok(found)
        } else {
            Err(Error::DeviceNotCovered)
        }
    }

    /// The registers of the first VT-d unit that handles a requester.
    pub fn intel_register_snapshot(&self, segment: u16, requester: u16) -> (r: Option<u64>)
        requires
            self.wf(),
        ensures
            ({
                let units = handling(self@, self@.units.len() as int, segment, requester);
                r == (if self@.topology.kind != IommuKind::IntelVtd || units.len() == 0 {
                    None::<u64>
                } else {
                    Some(self@.topology.units[units[0] as int].register_base)
                })
            }),
    {
        if self.topology.kind() != IommuKind::IntelVtd {
            return None;
        }
        let units = self.handling_units(segment, requester);
        if units.len() == 0 {
            return None;
        }
        proof {
            self.lemma_view();
            lemma_handling(self@, self@.units.len() as int, segment, requester);
        }
        Some(self.register_base(units[0]))
    }

    /// Where the registers of a unit are.
    pub fn register_base(&self, index: usize) -> (r: u64)
        requires
            self.wf(),
            index < self@.units.len(),
        ensures
            r == self@.topology.units[index as int].register_base,
    {
        let units = self.topology.units();
        assert(self@.topology.units[index as int] == units@[index as int]@);
        units[index].register_base
    }

    /// The pages of a unit.
    pub fn resources(&self, index: usize) -> (r: IommuResources)
        requires
            self.wf(),
            index < self@.units.len(),
        ensures
            r == self@.units[index as int].resources,
    {
        proof {
            self.lemma_view();
        }
        self.units[index].resources
    }

    pub fn topology(&self) -> (r: &IommuTopology)
        requires
            self.wf(),
        ensures
            r@ == self@.topology,
            r.wf(),
    {
        &self.topology
    }
}

/// Only units of the machine handle a requester.
proof fn lemma_handling(v: RemapperView, n: int, segment: u16, requester: u16)
    requires
        0 <= n <= v.units.len() <= usize::MAX,
    ensures
        forall|i: int|
            0 <= i < handling(v, n, segment, requester).len() ==> #[trigger] handling(
                v,
                n,
                segment,
                requester,
            )[i] < n,
    decreases n,
{
    if n > 0 {
        lemma_handling(v, n - 1, segment, requester);
        let before = handling(v, n - 1, segment, requester);
        assert forall|i: int| 0 <= i < handling(v, n, segment, requester).len() implies
            #[trigger] handling(v, n, segment, requester)[i] < n by {
            if i < before.len() {
                assert(before[i] < n - 1);
            }
        }
    }
}

/// A unit prepared for a requester: the domain's tables, and on VT-d the
/// requester's reserved ranges in them. The result is the root of the tables.
pub open spec fn unit_prepared(
    v: RemapperView,
    m: Map<int, u64>,
    index: int,
    segment: u16,
    requester: u16,
    domain_id: u16,
    host_base: u64,
    size: u64,
) -> Prepared {
    let kind = v.topology.kind;
    let ensured = domain_ensured(kind, m, v.units[index], domain_id, host_base, size);
    match ensured.result {
        Err(_) => ensured,
        Ok(root) => match kind {
            IommuKind::AmdVi => ensured,
            IommuKind::IntelVtd => {
                let preserved = ranges_preserved(
                    ensured.memory,
                    ensured.runtime,
                    root,
                    v.topology.reserved,
                    v.topology.reserved.len() as int,
                    segment,
                    requester,
                    size,
                );
                match preserved.result {
                    Err(_) => preserved,
                    Ok(_) => Prepared { result: Ok(root), ..preserved },
                }
            },
        },
    }
}

/// Whether firmware reserved memory for a requester.
pub open spec fn has_reserved(t: TopologyView, segment: u16, requester: u16) -> bool {
    t.kind == IommuKind::IntelVtd && exists|i: int|
        0 <= i < t.reserved.len() && concerns(#[trigger] t.reserved[i], segment, requester)
}

/// The ranges that were counted are those of the requester.
proof fn lemma_reserved_count(
    m: Map<int, u64>,
    runtime: RuntimeView,
    root: u64,
    mappings: Seq<ReservedMapping>,
    n: int,
    segment: u16,
    requester: u16,
    size: u64,
)
    requires
        0 <= n <= mappings.len() <= 0xffff,
    ensures
        ranges_preserved(
            m,
            runtime,
            root,
            mappings,
            n,
            segment,
            requester,
            size,
        ).result matches Ok(count) ==> {
            &&& count <= n
            &&& count > 0 <==> exists|i: int|
                0 <= i < n && concerns(#[trigger] mappings[i], segment, requester)
        },
    decreases n,
{
    if n > 0 {
        lemma_reserved_count(m, runtime, root, mappings, n - 1, segment, requester, size);
        let before = ranges_preserved(m, runtime, root, mappings, n - 1, segment, requester, size);
        if concerns(mappings[n - 1], segment, requester) {
        } else if before.result matches Ok(count) && count > 0 {
            let i = choose|i: int|
                0 <= i < n - 1 && concerns(#[trigger] mappings[i], segment, requester);
            assert(concerns(mappings[i], segment, requester));
        }
    }
}

/// A requester connected on a unit. The result is not used.
pub open spec fn unit_attached(
    kind: IommuKind,
    m: Map<int, u64>,
    runtime: RuntimeView,
    requester: u16,
    domain_id: u16,
    root: u64,
) -> Prepared {
    match kind {
        IommuKind::IntelVtd => {
            let edited = intel_attached(
                m,
                domain_arena(kind, runtime),
                requester,
                domain_id,
                root,
            );
            match edited.result {
                Err(e) => Prepared { result: Err(e), memory: edited.memory, runtime },
                Ok(_) => Prepared {
                    result: Ok(0),
                    memory: edited.memory,
                    runtime: RuntimeView { next_domain_page: edited.arena.next_page, ..runtime },
                },
            }
        },
        IommuKind::AmdVi => {
            let at = device_at(runtime.resources.remapping_table, requester);
            if amd_attachable(m, at) {
                Prepared {
                    result: Ok(0),
                    memory: with_device_entry(m, at, device_entry(root, domain_id)),
                    runtime,
                }
            } else {
                Prepared { result: Err(Error::InvalidResources), memory: m, runtime }
            }
        },
    }
}

/// What becomes of disconnecting a requester on a unit.
pub open spec fn unit_detachable(
    kind: IommuKind,
    m: Map<int, u64>,
    runtime: RuntimeView,
    requester: u16,
    domain_id: u16,
) -> Result<bool, Error> {
    let table = runtime.resources.remapping_table;
    match kind {
        IommuKind::IntelVtd => intel_detachable(m, table, requester, domain_id),
        IommuKind::AmdVi => amd_detachable(m, device_at(table, requester), domain_id),
    }
}

/// Memory without the requester's entry.
pub open spec fn unit_detached(
    kind: IommuKind,
    m: Map<int, u64>,
    runtime: RuntimeView,
    requester: u16,
) -> Map<int, u64> {
    let table = runtime.resources.remapping_table;
    match kind {
        IommuKind::IntelVtd => {
            let at = intel_context(m, table, requester);
            m.insert(at, 0).insert(at + 8, 0)
        },
        IommuKind::AmdVi => with_device_entry(
            m,
            device_at(table, requester),
            seq![0u64, 0u64, 0u64, 0u64],
        ),
    }
}

proof fn lemma_attached_keeps_arena(
    m: Map<int, u64>,
    arena: TableArena,
    requester: u16,
    domain_id: u16,
    root: u64,
)
    requires
        arena.next_page <= arena.page_count,
    ensures
        ({
            let after = intel_attached(m, arena, requester, domain_id, root).arena;
            &&& after.base == arena.base
            &&& after.page_count == arena.page_count
            &&& arena.next_page <= after.next_page <= arena.page_count
        }),
{
}

impl DmaRemapper {
    /// Prepares a unit for a requester: finds or makes the domain's tables and
    /// keeps the requester's reserved ranges in them. Gives the root of the
    /// tables, and whether the requester has reserved ranges.
    pub fn prepare_unit(
        &mut self,
        memory: &mut PhysicalMemory,
        index: usize,
        segment: u16,
        requester: u16,
        domain_id: u16,
        host_base: u64,
        size: u64,
    ) -> (r: Result<(u64, bool), Error>)
        requires
            old(self).wf(),
            old(memory).wf(),
            index < old(self)@.units.len(),
            unit_wf(
                old(self)@.topology.kind,
                old(self)@.units[index as int],
                old(memory)@,
            ),
            is_assignable(requester, host_base, size),
        ensures
            final(self).wf(),
            final(memory).wf(),
            final(self)@.topology == old(self)@.topology,
            ({
                let p = unit_prepared(
                    old(self)@,
                    old(memory)@,
                    index as int,
                    segment,
                    requester,
                    domain_id,
                    host_base,
                    size,
                );
                &&& final(memory)@ == p.memory
                &&& final(self)@.units == old(self)@.units.update(index as int, p.runtime)
                &&& unit_wf(
                    old(self)@.topology.kind,
                    final(self)@.units[index as int],
                    final(memory)@,
                )
                &&& match p.result {
                    Err(e) => r == Err::<(u64, bool), Error>(e),
                    Ok(root) => r == Ok::<(u64, bool), Error>(
                        (root, has_reserved(old(self)@.topology, segment, requester)),
                    ),
                }
            }),
    {
        proof {
            self.lemma_view();
        }
        let kind = self.topology.kind();
        let ghost before = self@;
        let done = prepare_runtime(
            kind,
            memory,
            &mut self.units[index],
            self.topology.reserved_mappings(),
            segment,
            requester,
            domain_id,
            host_base,
            size,
        );
        proof {
            let p = unit_prepared(
                before,
                old(memory)@,
                index as int,
                segment,
                requester,
                domain_id,
                host_base,
                size,
            );
            assert(self@.units =~= before.units.update(index as int, p.runtime));
        }
        done
    }

    /// Connects a requester on a unit. What the unit cached must be invalidated
    /// afterwards.
    pub fn attach_unit(
        &mut self,
        memory: &mut PhysicalMemory,
        index: usize,
        requester: u16,
        domain_id: u16,
        root: u64,
    ) -> (r: Result<(), Error>)
        requires
            old(self).wf(),
            old(memory).wf(),
            index < old(self)@.units.len(),
            unit_wf(
                old(self)@.topology.kind,
                old(self)@.units[index as int],
                old(memory)@,
            ),
        ensures
            final(self).wf(),
            final(memory).wf(),
            final(self)@.topology == old(self)@.topology,
            ({
                let p = unit_attached(
                    old(self)@.topology.kind,
                    old(memory)@,
                    old(self)@.units[index as int],
                    requester,
                    domain_id,
                    root,
                );
                &&& final(memory)@ == p.memory
                &&& final(self)@.units == old(self)@.units.update(index as int, p.runtime)
                &&& unit_wf(
                    old(self)@.topology.kind,
                    final(self)@.units[index as int],
                    final(memory)@,
                )
                &&& r == (match p.result {
                    Ok(_) => Ok::<(), Error>(()),
                    Err(e) => Err(e),
                })
            }),
    {
        proof {
            self.lemma_view();
        }
        let ghost before = self@;
        let kind = self.topology.kind();
        match kind {
            IommuKind::IntelVtd => {
                let mut arena = runtime_arena(kind, &self.units[index]);
                proof {
                    lemma_attached_keeps_arena(memory@, arena, requester, domain_id, root);
                    assert(self@.units =~= before.units.update(
                        index as int,
                        before.units[index as int],
                    ));
                }
                attach_intel_requester(memory, &mut arena, requester, domain_id, root)?;
                self.units[index].next_domain_page = arena.next_page;
                proof {
                    let p = unit_attached(
                        kind,
                        old(memory)@,
                        before.units[index as int],
                        requester,
                        domain_id,
                        root,
                    );
                    assert(self@.units =~= before.units.update(index as int, p.runtime));
                }
                Ok(())
            },
            IommuKind::AmdVi => {
                let table: u64 = self.units[index].resources.remapping_table;
                assert(self@.units =~= before.units.update(
                    index as int,
                    before.units[index as int],
                ));
                attach_amd_requester(memory, table, requester, domain_id, root)
            },
        }
    }

    /// Disconnects a requester on a unit, and says whether what the unit cached
    /// must be invalidated.
    pub fn detach_unit(
        &self,
        memory: &mut PhysicalMemory,
        index: usize,
        requester: u16,
        domain_id: u16,
    ) -> (r: Result<bool, Error>)
        requires
            self.wf(),
            old(memory).wf(),
            index < self@.units.len(),
            self@.units[index as int].resources.remapping_table % 0x1000 == 0,
            self@.units[index as int].resources.remapping_table < PHYSICAL_LIMIT,
        ensures
            final(memory).wf(),
            r == unit_detachable(
                self@.topology.kind,
                old(memory)@,
                self@.units[index as int],
                requester,
                domain_id,
            ),
            final(memory)@ == (if r == Ok::<bool, Error>(true) {
                unit_detached(
                    self@.topology.kind,
                    old(memory)@,
                    self@.units[index as int],
                    requester,
                )
            } else {
                old(memory)@
            }),
            unit_wf(self@.topology.kind, self@.units[index as int], old(memory)@) ==> unit_wf(
                self@.topology.kind,
                self@.units[index as int],
                final(memory)@,
            ),
    {
        proof {
            self.lemma_view();
        }
        let table: u64 = self.units[index].resources.remapping_table;
        match self.topology.kind() {
            IommuKind::IntelVtd => detach_intel_requester(memory, table, requester, domain_id),
            IommuKind::AmdVi => detach_amd_requester(memory, table, requester, domain_id),
        }
    }
}

fn prepare_runtime(
    kind: IommuKind,
    memory: &mut PhysicalMemory,
    runtime: &mut UnitRuntime,
    mappings: &[ReservedMapping],
    segment: u16,
    requester: u16,
    domain_id: u16,
    host_base: u64,
    size: u64,
) -> (r: Result<(u64, bool), Error>)
    requires
        old(memory).wf(),
        unit_wf(kind, old(runtime)@, old(memory)@),
        is_assignable(requester, host_base, size),
        mappings@.len() <= 32,
    ensures
        final(memory).wf(),
        unit_wf(kind, final(runtime)@, final(memory)@),
        ({
            let ensured = domain_ensured(
                kind,
                old(memory)@,
                old(runtime)@,
                domain_id,
                host_base,
                size,
            );
            let preserved = ranges_preserved(
                ensured.memory,
                ensured.runtime,
                ensured.result->Ok_0,
                mappings@,
                mappings@.len() as int,
                segment,
                requester,
                size,
            );
            if ensured.result is Err || kind == IommuKind::AmdVi {
                &&& final(memory)@ == ensured.memory
                &&& final(runtime)@ == ensured.runtime
                &&& r == (match ensured.result {
                    Ok(root) => Ok::<(u64, bool), Error>((root, false)),
                    Err(e) => Err(e),
                })
            } else {
                &&& final(memory)@ == preserved.memory
                &&& final(runtime)@ == preserved.runtime
                &&& r == (match preserved.result {
                    Ok(_) => Ok::<(u64, bool), Error>(
                        (
                            ensured.result->Ok_0,
                            exists|i: int|
                                0 <= i < mappings@.len() && concerns(
                                    #[trigger] mappings@[i],
                                    segment,
                                    requester,
                                ),
                        ),
                    ),
                    Err(e) => Err(e),
                })
            }
        }),
{
    let root: u64 = ensure_domain_mapping(kind, memory, runtime, domain_id, host_base, size)?;
    if kind == IommuKind::AmdVi {
        return Ok((root, false));
    }
    proof {
        lemma_reserved_count(
            memory@,
            runtime@,
            root,
            mappings@,
            mappings@.len() as int,
            segment,
            requester,
            size,
        );
    }
    let count: u64 = preserve_reserved_ranges(
        memory,
        runtime,
        root,
        mappings,
        segment,
        requester,
        size,
    )?;
    Ok((root, count > 0))
}

/// What `enable_deny_all` has to do: the units to take over, in order, and the
/// error that ends it, if any.
#[derive(Debug, PartialEq, Eq)]
pub struct DenyAllPlan {
    pub units: Vec<usize>,
    pub error: Option<Error>,
}

/// A unit whose device table is in place.
pub open spec fn is_deniable(segment: u16, table: u64) -> bool {
    segment == 0 && table != 0 && table % 0x1000 == 0
}

/// The units among the first `n` that are taken over, and the error that ends it.
pub open spec fn deny_all(
    t: TopologyView,
    tables: Seq<u64>,
    deferred_requester: Option<u16>,
    n: int,
) -> (Seq<usize>, Option<Error>)
    decreases n,
{
    if n <= 0 {
        (Seq::empty(), None)
    } else {
        let (units, error) = deny_all(t, tables, deferred_requester, n - 1);
        if error is Some || is_deferred(t, n - 1, deferred_requester) {
            (units, error)
        } else if !is_deniable(t.units[n - 1].segment, tables[n - 1]) {
            (units, Some(Error::InvalidResources))
        } else {
            (units.push((n - 1) as usize), None)
        }
    }
}

proof fn lemma_deny_all_ends(
    t: TopologyView,
    tables: Seq<u64>,
    deferred_requester: Option<u16>,
    n: int,
    k: int,
)
    requires
        0 <= n <= k,
        deny_all(t, tables, deferred_requester, n).1 is Some,
    ensures
        deny_all(t, tables, deferred_requester, k) == deny_all(t, tables, deferred_requester, n),
    decreases k,
{
    if n < k {
        lemma_deny_all_ends(t, tables, deferred_requester, n, k - 1);
    }
}

/// Plans to take over every unit with tables that deny everything, but for one
/// that firmware keeps for the boot display.
pub fn enable_deny_all(
    topology: &IommuTopology,
    table_addresses: &[u64],
    deferred_requester: Option<u16>,
) -> (r: DenyAllPlan)
    ensures
        if table_addresses@.len() != topology@.units.len() {
            r.units@ == Seq::<usize>::empty() && r.error == Some(Error::InvalidResources)
        } else {
            (r.units@, r.error) == deny_all(
                topology@,
                table_addresses@,
                deferred_requester,
                topology@.units.len() as int,
            )
        },
{
    let mut units: Vec<usize> = Vec::new();
    if table_addresses.len() != topology.unit_count() {
        return DenyAllPlan { units, error: Some(Error::InvalidResources) };
    }
    let known = topology.units();
    let mut i: usize = 0;
    while i < table_addresses.len()
        invariant
            i <= table_addresses@.len() == topology@.units.len(),
            known@.map_values(|u: super::IommuUnit| u@) == topology@.units,
            (units@, None::<Error>) == deny_all(
                topology@,
                table_addresses@,
                deferred_requester,
                i as int,
            ),
        decreases table_addresses@.len() - i,
    {
        assert(known@.len() == topology@.units.len());
        assert(topology@.units[i as int] == known@[i as int]@);
        if !unit_deferred(topology, i, deferred_requester) {
            if known[i].segment != 0 || table_addresses[i] == 0 || table_addresses[i] % 0x1000
                != 0 {
                proof {
                    lemma_deny_all_ends(
                        topology@,
                        table_addresses@,
                        deferred_requester,
                        i + 1,
                        topology@.units.len() as int,
                    );
                }
                return DenyAllPlan { units, error: Some(Error::InvalidResources) };
            }
            units.push(i);
        }
        i += 1;
    }
    DenyAllPlan { units, error: None }
}

impl DmaRemapper {
    /// Begins to invalidate a requester on an AMD-Vi unit: the value that the
    /// unit stores when it is done.
    pub fn begin_invalidation(&mut self, index: usize) -> (r: u64)
        requires
            old(self).wf(),
            index < old(self)@.units.len(),
        ensures
            final(self).wf(),
            r == (if old(self)@.units[index as int].completion_value == u64::MAX {
                1
            } else {
                old(self)@.units[index as int].completion_value + 1
            }),
            final(self)@ == (RemapperView {
                units: old(self)@.units.update(
                    index as int,
                    RuntimeView { completion_value: r, ..old(self)@.units[index as int] },
                ),
                ..old(self)@
            }),
    {
        proof {
            self.lemma_view();
        }
        let value: u64 = next_completion(self.units[index].completion_value);
        self.units[index].completion_value = value;
        assert(self@.units =~= old(self)@.units.update(
            index as int,
            RuntimeView { completion_value: value, ..old(self)@.units[index as int] },
        ));
        value
    }

    /// Takes the place of the next command in a unit's ring, if there is room:
    /// where the command goes, and where the ring then ends.
    pub fn reserve_command(&mut self, index: usize, head: u64) -> (r: Option<(usize, usize)>)
        requires
            old(self).wf(),
            index < old(self)@.units.len(),
            old(self)@.units[index as int].command_tail < AMD_COMMAND_BUFFER_SIZE,
        ensures
            final(self).wf(),
            ({
                let tail = old(self)@.units[index as int].command_tail;
                let next = next_tail(tail as int);
                if next != head % 0x2000 {
                    &&& r == Some((tail, next as usize))
                    &&& final(self)@ == (RemapperView {
                        units: old(self)@.units.update(
                            index as int,
                            RuntimeView {
                                command_tail: next as usize,
                                ..old(self)@.units[index as int]
                            },
                        ),
                        ..old(self)@
                    })
                } else {
                    r is None && final(self)@ == old(self)@
                }
            }),
    {
        proof {
            self.lemma_view();
        }
        let tail: usize = self.units[index].command_tail;
        match queue_amd_command(tail, head) {
            None => None,
            Some(next) => {
                self.units[index].command_tail = next;
                assert(self@.units =~= old(self)@.units.update(
                    index as int,
                    RuntimeView { command_tail: next, ..old(self)@.units[index as int] },
                ));
                Some((tail, next))
            },
        }
    }
}

proof fn lemma_entry_words(root: u64, domain_id: u16)
    ensures
        (root | INTEL_PRESENT) & INTEL_PRESENT != 0,
        intel_context_high(domain_id) / 0x100 % 0x1_0000 == domain_id,
        device_entry(root, domain_id)[0] & AMD_DTE_VALID != 0,
        0u64 & 1 == 0,
{
    let wide = domain_id as u64;
    assert((root | 1) & 1 != 0 && (wide <= 0xffff ==> ((wide * 0x100) as u64 | 2) / 0x100 % 0x1_0000
        == wide) && (root | 1 | 2 | 0x800 | 0x6000_0000_0000_0000) & 1 != 0 && 0u64 & 1 == 0)
        by (bit_vector);
}

/// A requester that was connected to a domain can be disconnected from that
/// domain, and then has no entry left.
pub proof fn law_detach_undoes_attach(
    kind: IommuKind,
    m: Map<int, u64>,
    runtime: RuntimeView,
    requester: u16,
    domain_id: u16,
    root: u64,
)
    requires
        unit_wf(kind, runtime, m),
        unit_attached(kind, m, runtime, requester, domain_id, root).result is Ok,
        kind == IommuKind::IntelVtd ==> {
            &&& runtime.next_domain_page >= 1
            &&& m[context_at(runtime.resources.remapping_table, requester as int / 256)]
                & CONTEXT_ADDRESS != runtime.resources.remapping_table
        },
    ensures
        ({
            let after = unit_attached(kind, m, runtime, requester, domain_id, root);
            let last = unit_detached(kind, after.memory, after.runtime, requester);
            &&& unit_detachable(kind, after.memory, after.runtime, requester, domain_id) == Ok::<
                bool,
                Error,
            >(true)
            &&& unit_detachable(kind, last, after.runtime, requester, domain_id) == Ok::<
                bool,
                Error,
            >(false)
        }),
{
    lemma_entry_words(root, domain_id);
    let table = runtime.resources.remapping_table;
    let after = unit_attached(kind, m, runtime, requester, domain_id, root);
    match kind {
        IommuKind::IntelVtd => {
            let arena = domain_arena(kind, runtime);
            let bus = requester as int / 256;
            let entry = with_root_entry(m, arena, table, bus);
            let context_table = entry.result->Ok_0;
            let at = context_at(context_table, requester as int % 256);
            lemma_context_entry(m, arena, bus);
            assert(after.memory[context_at(table, bus)] & CONTEXT_ADDRESS == context_table);
            assert(intel_context(after.memory, table, requester) == at);
            let last = unit_detached(kind, after.memory, after.runtime, requester);
            assert(last[context_at(table, bus)] == after.memory[context_at(table, bus)]);
        },
        IommuKind::AmdVi => {},
    }
}

/// The root entry that leads to a context table lies in another page.
proof fn lemma_context_entry(m: Map<int, u64>, arena: TableArena, bus: int)
    requires
        arena.wf(m),
        arena.next_page >= 1,
        0 <= bus < 256,
        m[context_at(arena.base, bus)] & CONTEXT_ADDRESS != arena.base,
        with_root_entry(m, arena, arena.base, bus).result is Ok,
    ensures
        ({
            let entry = with_root_entry(m, arena, arena.base, bus);
            let table = entry.result->Ok_0;
            &&& table != 0
            &&& table % 0x1000 == 0
            &&& table != arena.base
            &&& entry.memory[context_at(arena.base, bus)] & CONTEXT_ADDRESS == table
            &&& forall|i: int|
                0 <= i < 256 ==> #[trigger] context_at(table, i) != context_at(arena.base, bus)
                    && context_at(table, i) + 8 != context_at(arena.base, bus)
        }),
{
    let word = m[context_at(arena.base, bus)];
    let page = arena.page(arena.next_page as int) as u64;
    assert((word & 0xffff_ffff_ffff_f000) % 0x1000 == 0 && (page % 0x1000 == 0 ==> (page | 1)
        & 0xffff_ffff_ffff_f000 == page)) by (bit_vector);
    let entry = with_root_entry(m, arena, arena.base, bus);
    let table = entry.result->Ok_0;
    assert forall|i: int| 0 <= i < 256 implies #[trigger] context_at(table, i) != context_at(
        arena.base,
        bus,
    ) && context_at(table, i) + 8 != context_at(arena.base, bus) by {
        if table < arena.base {
            assert(table + 0x1000 <= arena.base);
        } else {
            assert(arena.base + 0x1000 <= table);
        }
    }
}

/// A Domain has the same number in the tables, and none exactly where that is zero or
/// does not fit sixteen bits. Memory is assigned exactly where it is whole pages that do
/// not wrap around, to a requester that is not zero.
pub proof fn law_identifiers_and_memory_fit(
    domain_id: u32,
    requester: u16,
    host_base: u64,
    size: u64,
)
    ensures
        match table_domain(domain_id) {
            Ok(number) => number == domain_id && number > 0,
            Err(e) => e == Error::DomainIdUnavailable && (domain_id == 0 || domain_id >= 0x1_0000),
        },
        is_assignable(requester, host_base, size) <==> requester > 0 && host_base > 0 && size > 0
            && host_base % 4096 == 0 && size % 4096 == 0 && host_base + size
            < 0x1_0000_0000_0000_0000,
{
}

/// The units that handle a requester, and those that were left to the firmware, are
/// exactly the ones that say so, each once and first to last.
pub proof fn law_handling_units_are_all_found(
    v: RemapperView,
    n: int,
    segment: u16,
    requester: u16,
    i: int,
)
    requires
        0 <= n <= v.units.len() <= usize::MAX,
        0 <= i < n,
    ensures
        handling(v, n, segment, requester).contains(i as usize) <==> v.units[i].enabled && handles(
            v.topology,
            i,
            segment,
            requester,
        ),
        deferred(v, n, segment, requester).contains(i as usize) <==> !v.units[i].enabled && handles(
            v.topology,
            i,
            segment,
            requester,
        ),
        forall|j: int, k: int|
            0 <= j < k < handling(v, n, segment, requester).len() ==> #[trigger] handling(
                v,
                n,
                segment,
                requester,
            )[j] < #[trigger] handling(v, n, segment, requester)[k],
{
    lemma_listed_units(v, n, segment, requester);
    let all = handling(v, n, segment, requester);
    let left = deferred(v, n, segment, requester);
    assert(is_listed(all, i) <==> all.contains(i as usize));
    assert(is_listed(left, i) <==> left.contains(i as usize));
}

/// The unit is one of these.
pub open spec fn is_listed(units: Seq<usize>, i: int) -> bool {
    exists|j: int| 0 <= j < units.len() && #[trigger] units[j] == i
}

proof fn lemma_listed_units(v: RemapperView, n: int, segment: u16, requester: u16)
    requires
        0 <= n <= v.units.len() <= usize::MAX,
    ensures
        ({
            let all = handling(v, n, segment, requester);
            let left = deferred(v, n, segment, requester);
            &&& forall|j: int| 0 <= j < all.len() ==> 0 <= #[trigger] all[j] < n
            &&& forall|j: int| 0 <= j < left.len() ==> 0 <= #[trigger] left[j] < n
            &&& forall|j: int, k: int|
                0 <= j < k < all.len() ==> #[trigger] all[j] < #[trigger] all[k]
            &&& forall|i: int|
                0 <= i < n ==> (#[trigger] is_listed(all, i) <==> v.units[i].enabled && handles(
                    v.topology,
                    i,
                    segment,
                    requester,
                ))
            &&& forall|i: int|
                0 <= i < n ==> (#[trigger] is_listed(left, i) <==> !v.units[i].enabled && handles(
                    v.topology,
                    i,
                    segment,
                    requester,
                ))
        }),
    decreases n,
{
    if n > 0 {
        lemma_listed_units(v, n - 1, segment, requester);
        let all = handling(v, n - 1, segment, requester);
        let left = deferred(v, n - 1, segment, requester);
        lemma_pushed(all, n - 1);
        lemma_pushed(left, n - 1);
    }
}

proof fn lemma_pushed(units: Seq<usize>, n: int)
    requires
        0 <= n < usize::MAX,
        forall|j: int| 0 <= j < units.len() ==> 0 <= #[trigger] units[j] < n,
    ensures
        !is_listed(units, n),
        is_listed(units.push(n as usize), n),
        forall|i: int|
            0 <= i < n ==> (#[trigger] is_listed(units.push(n as usize), i) <==> is_listed(
                units,
                i,
            )),
{
    let more = units.push(n as usize);
    assert(more[units.len() as int] == n);
    assert forall|i: int| 0 <= i < n implies (#[trigger] is_listed(more, i) <==> is_listed(
        units,
        i,
    )) by {
        if is_listed(units, i) {
            let j = choose|j: int| 0 <= j < units.len() && #[trigger] units[j] == i;
            assert(more[j] == i);
        }
        if is_listed(more, i) {
            let j = choose|j: int| 0 <= j < more.len() && #[trigger] more[j] == i;
            assert(units[j] == i);
        }
    }
}

/// A unit is prepared, then freed of the firmware's domain where it held ranges for the
/// requester, then connected, and only then the next unit is turned to.
pub proof fn law_units_are_assigned_in_order(units: int, at: usize, root: u64, error: Error)
    requires
        at < units <= usize::MAX,
    ensures
        ({
            let next = if at + 1 == units {
                AssignPhase::Succeeded
            } else {
                AssignPhase::Prepare { at: (at + 1) as usize }
            };
            let attach = AssignPhase::Attach { at, root };
            let release = AssignPhase::Release { at, root };
            let prepare = AssignPhase::Prepare { at };
            &&& next_phase(units, prepare, AssignOutcome::Prepared { root, reserved: false })
                == attach
            &&& next_phase(units, prepare, AssignOutcome::Prepared { root, reserved: true })
                == release
            &&& next_phase(units, release, AssignOutcome::Done) == attach
            &&& next_phase(units, release, AssignOutcome::Failed(error)) == AssignPhase::Refused(
                error,
            )
            &&& next_phase(units, attach, AssignOutcome::Done) == next
        }),
{
}

/// A domain that was given tables keeps them: asking again for the same memory gives the
/// same root and changes nothing, and asking for other memory is refused. A unit knows up
/// to eight domains.
pub proof fn law_domain_keeps_its_tables(
    kind: IommuKind,
    m: Map<int, u64>,
    runtime: RuntimeView,
    domain_id: u16,
    host_base: u64,
    size: u64,
    other_base: u64,
    other_size: u64,
)
    requires
        domain_ensured(kind, m, runtime, domain_id, host_base, size).result is Ok,
        runtime.domains.len() <= 8,
    ensures
        ({
            let first = domain_ensured(kind, m, runtime, domain_id, host_base, size);
            let again = domain_ensured(
                kind,
                first.memory,
                first.runtime,
                domain_id,
                host_base,
                size,
            );
            let other = domain_ensured(
                kind,
                first.memory,
                first.runtime,
                domain_id,
                other_base,
                other_size,
            );
            &&& again == first
            &&& first.runtime.domains.len() <= 8
            &&& other_base != host_base || other_size != size ==> {
                &&& other.result == Err::<u64, Error>(Error::InvalidResources)
                &&& other.memory == first.memory
                &&& other.runtime == first.runtime
            }
        }),
{
    let first = domain_ensured(kind, m, runtime, domain_id, host_base, size);
    if find_domain(runtime.domains, domain_id, 0) is None {
        lemma_pushed_domain(runtime.domains, first.runtime.domains.last(), 0);
        assert(first.runtime.domains =~= runtime.domains.push(first.runtime.domains.last()));
    } else {
        lemma_found_domain(runtime.domains, domain_id, 0);
    }
}

proof fn lemma_found_domain(domains: Seq<DomainMapping>, domain_id: u16, i: int)
    requires
        0 <= i <= domains.len(),
    ensures
        find_domain(domains, domain_id, i) matches Some(j) ==> i <= j < domains.len()
            && domains[j].domain_id == domain_id,
    decreases domains.len() - i,
{
    if i < domains.len() && domains[i].domain_id != domain_id {
        lemma_found_domain(domains, domain_id, i + 1);
    }
}

proof fn lemma_pushed_domain(domains: Seq<DomainMapping>, last: DomainMapping, i: int)
    requires
        0 <= i <= domains.len(),
        find_domain(domains, last.domain_id, i) is None,
    ensures
        find_domain(domains.push(last), last.domain_id, i) == Some(domains.len() as int),
    decreases domains.len() - i,
{
    if i < domains.len() {
        lemma_pushed_domain(domains, last, i + 1);
    }
}

/// Every unit is made to deny everything but one that the firmware keeps for the boot
/// display. It ends at the first other unit that lies in another segment or has no page
/// for its table, and the units before that are taken over all the same.
pub proof fn law_every_other_unit_denies(
    t: TopologyView,
    tables: Seq<u64>,
    deferred_requester: Option<u16>,
    n: int,
    i: int,
)
    requires
        0 <= i < n <= t.units.len() <= usize::MAX,
    ensures
        ({
            let (units, error) = deny_all(t, tables, deferred_requester, n);
            let sound = t.units[i].segment == 0 && tables[i] > 0 && tables[i] % 4096 == 0;
            &&& error is None ==> (is_listed(units, i) <==> !is_deferred(t, i, deferred_requester))
            &&& is_listed(units, i) ==> sound && !is_deferred(t, i, deferred_requester)
            &&& error is None && !is_deferred(t, i, deferred_requester) ==> sound
            &&& error matches Some(e) ==> e == Error::InvalidResources
        }),
    decreases n,
{
    lemma_denied(t, tables, deferred_requester, n - 1);
    let (units, _) = deny_all(t, tables, deferred_requester, n - 1);
    lemma_pushed(units, n - 1);
    if i < n - 1 {
        law_every_other_unit_denies(t, tables, deferred_requester, n - 1, i);
    }
}

proof fn lemma_denied(
    t: TopologyView,
    tables: Seq<u64>,
    deferred_requester: Option<u16>,
    n: int,
)
    requires
        0 <= n < usize::MAX,
    ensures
        ({
            let (units, error) = deny_all(t, tables, deferred_requester, n);
            &&& forall|j: int| 0 <= j < units.len() ==> 0 <= #[trigger] units[j] < n
            &&& error matches Some(e) ==> e == Error::InvalidResources
        }),
    decreases n,
{
    if n > 0 {
        lemma_denied(t, tables, deferred_requester, n - 1);
    }
}

/// Only a VT-d unit that handles the boot display is left to the firmware, and only where
/// a display is kept.
pub proof fn law_units_are_left_for_the_display(
    t: TopologyView,
    index: int,
    requester: u16,
)
    ensures
        !is_deferred(t, index, None),
        is_deferred(t, index, Some(requester)) <==> t.kind is IntelVtd && handles(
            t,
            index,
            0,
            requester,
        ),
{
}

} // verus!
