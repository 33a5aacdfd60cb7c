//! How a Domain takes over a PCI function, and how it gives it back.
//!
//! Between the steps the caller drives the hardware: it reads the function's
//! configuration, silences the function, flushes translations and programs the
//! remapping units. Each method here takes what came of that and names what has to
//! be done next.

use vstd::prelude::*;

use crate::abi::{PCI_DEVICE_STATE_CLAIMED_DISABLED, PCI_DEVICE_STATE_QUARANTINED};
use crate::boot_memory::{is_device_mmio, BootMemoryMap, MemoryMapView};
use crate::device::{claim_verdict, is_deferred, release_verdict, with_owner, DeviceTable};
use crate::halt::Stage;
use crate::iommu::registers::IntelTransitionStage;
use crate::layout::DEVICE_WINDOW_START;
use crate::memory::{
    is_device_range, law_map_range_is_transactional, leaf, lemma_map_leaves, lemma_reach,
    lemma_tiled_frame, lemma_unmap_tiled, map_range, maps_range, no_leaves, points_to, reaches,
    same_leaves, same_leaves_outside, tables_wf, tiled, unmap_leaves, NestedPageResources,
    NestedPageTable, GIGABYTE, PHYSICAL_LIMIT,
};
use crate::pci::{
    assignments_wf, bar_in_window, free_slot, holds_requester, identity_bars, insert_error,
    is_assigned, is_inserted, is_vacant, lemma_free_slot, slot_of, Assignment, AssignmentTable,
    PciBar, PciDescriptor, PciError,
};
use crate::physical::PhysicalMemory;
use crate::BackendKind;

verus! {

/// The room that device registers have in a Domain.
pub const DEVICE_WINDOW_SIZE: u64 = 0xff_f000_0000;

/// Why a function was not handed over.
#[derive(Clone, Copy, Debug, PartialEq, Eq, Structural)]
pub enum ClaimFailure {
    Policy,
    Probe(PciError),
    Mmio,
    Window,
    NestedTable,
    NestedFlush,
    Iommu,
    IommuHandoff,
    DmaMap,
    State,
}

impl ClaimFailure {
    /// What the screen shows.
    pub fn label(self) -> (r: &'static str)
        ensures
            r@ == self.text(),
    {
        match self {
            ClaimFailure::Policy => "POLICY ERROR",
            ClaimFailure::Probe(error) => match error {
                PciError::InvalidRequester => "BDF ERROR",
                PciError::InvalidState => "STATE ERROR",
                PciError::UnsupportedHeader => "HEADER ERROR",
                PciError::UnsupportedBar => "BAR TYPE ERROR",
                PciError::InvalidBar => "BAR VALUE ERROR",
                PciError::DeviceWindowExhausted => "WINDOW ERROR",
                PciError::InterruptUnavailable => "IRQ ERROR",
                PciError::RegisterWriteFailed => "PCI WRITE ERROR",
            },
            ClaimFailure::Mmio => "MMIO ERROR",
            ClaimFailure::Window => "WINDOW ERROR",
            ClaimFailure::NestedTable => "EPT ERROR",
            ClaimFailure::NestedFlush => "EPT FLUSH ERROR",
            ClaimFailure::Iommu => "IOMMU ERROR",
            ClaimFailure::IommuHandoff => "IOMMU HANDOFF ERROR",
            ClaimFailure::DmaMap => "DMA MAP ERROR",
            ClaimFailure::State => "STATE ERROR",
        }
    }

    pub open spec fn text(self) -> Seq<char> {
        match self {
            ClaimFailure::Policy => "POLICY ERROR"@,
            ClaimFailure::Probe(error) => match error {
                PciError::InvalidRequester => "BDF ERROR"@,
                PciError::InvalidState => "STATE ERROR"@,
                PciError::UnsupportedHeader => "HEADER ERROR"@,
                PciError::UnsupportedBar => "BAR TYPE ERROR"@,
                PciError::InvalidBar => "BAR VALUE ERROR"@,
                PciError::DeviceWindowExhausted => "WINDOW ERROR"@,
                PciError::InterruptUnavailable => "IRQ ERROR"@,
                PciError::RegisterWriteFailed => "PCI WRITE ERROR"@,
            },
            ClaimFailure::Mmio => "MMIO ERROR"@,
            ClaimFailure::Window => "WINDOW ERROR"@,
            ClaimFailure::NestedTable => "EPT ERROR"@,
            ClaimFailure::NestedFlush => "EPT FLUSH ERROR"@,
            ClaimFailure::Iommu => "IOMMU ERROR"@,
            ClaimFailure::IommuHandoff => "IOMMU HANDOFF ERROR"@,
            ClaimFailure::DmaMap => "DMA MAP ERROR"@,
            ClaimFailure::State => "STATE ERROR"@,
        }
    }
}

/// What the screen shows while the firmware's remapping unit is taken over.
pub fn transition_label(stage: IntelTransitionStage) -> (r: &'static str)
    ensures
        r@ == (match stage {
            IntelTransitionStage::Tables => "IOMMU TABLES"@,
            IntelTransitionStage::Disable => "IOMMU DISABLE"@,
            IntelTransitionStage::WriteBuffer => "IOMMU WRITE BUFFER"@,
            IntelTransitionStage::Root => "IOMMU ROOT"@,
            IntelTransitionStage::Context => "IOMMU CONTEXT"@,
            IntelTransitionStage::Iotlb => "IOMMU IOTLB"@,
            IntelTransitionStage::Enable { .. } => "IOMMU ENABLE"@,
            IntelTransitionStage::ProtectedMemory => "IOMMU PROTECTED"@,
        }),
{
    match stage {
        IntelTransitionStage::Tables => "IOMMU TABLES",
        IntelTransitionStage::Disable => "IOMMU DISABLE",
        IntelTransitionStage::WriteBuffer => "IOMMU WRITE BUFFER",
        IntelTransitionStage::Root => "IOMMU ROOT",
        IntelTransitionStage::Context => "IOMMU CONTEXT",
        IntelTransitionStage::Iotlb => "IOMMU IOTLB",
        IntelTransitionStage::Enable { .. } => "IOMMU ENABLE",
        IntelTransitionStage::ProtectedMemory => "IOMMU PROTECTED",
    }
}

/// Maps the BARs from `from` on, up to the first that fails. Gives the number of
/// BARs that are behind it.
pub open spec fn map_bars(
    b: BackendKind,
    r: NestedPageResources,
    m: Map<int, u64>,
    bars: Seq<PciBar>,
    from: int,
) -> (int, Map<int, u64>)
    decreases bars.len() - from,
{
    if from >= bars.len() {
        (from, m)
    } else if bars[from].length == 0 {
        map_bars(b, r, m, bars, from + 1)
    } else {
        let (ok, n) = map_range(
            b,
            r,
            m,
            bars[from].guest_address,
            bars[from].physical_address,
            bars[from].length,
        );
        if ok {
            map_bars(b, r, n, bars, from + 1)
        } else {
            (from, n)
        }
    }
}

/// Removes the BARs from `from` up to `to`, up to the first that is not mapped.
pub open spec fn unmap_bars(
    b: BackendKind,
    r: NestedPageResources,
    m: Map<int, u64>,
    bars: Seq<PciBar>,
    from: int,
    to: int,
) -> (bool, Map<int, u64>)
    decreases to - from,
{
    if from >= to {
        (true, m)
    } else if bars[from].length == 0 {
        unmap_bars(b, r, m, bars, from + 1, to)
    } else if !is_device_range(r, bars[from].guest_address, bars[from].length) {
        (false, m)
    } else {
        let (ok, n) = unmap_leaves(
            b,
            r,
            m,
            bars[from].guest_address as int,
            bars[from].length as int,
        );
        if ok {
            unmap_bars(b, r, n, bars, from + 1, to)
        } else {
            (false, n)
        }
    }
}

/// Every BAR lies where the machine has addresses.
pub open spec fn are_addressable(bars: Seq<PciBar>) -> bool {
    forall|i: int|
        0 <= i < bars.len() ==> (#[trigger] bars[i]).physical_address + bars[i].length
            <= PHYSICAL_LIMIT
}

/// Maps each BAR of a function into a Domain. Gives the number of BARs that are
/// mapped: fewer than all, where one does not fit.
fn map_pci_bars(
    table: &NestedPageTable,
    memory: &mut PhysicalMemory,
    bars: &Vec<PciBar>,
) -> (r: usize)
    requires
        old(memory).wf(),
        table.tables_wf(old(memory)@),
        are_addressable(bars@),
    ensures
        final(memory).wf(),
        table.tables_wf(final(memory)@),
        r <= bars@.len(),
        (r as int, final(memory)@) == map_bars(
            table.spec_backend(),
            table@,
            old(memory)@,
            bars@,
            0,
        ),
{
    let ghost before = memory@;
    let mut i: usize = 0;
    while i < bars.len()
        invariant
            i <= bars.len(),
            before == old(memory)@,
            memory.wf(),
            table.tables_wf(memory@),
            are_addressable(bars@),
            map_bars(table.spec_backend(), table@, before, bars@, 0) == map_bars(
                table.spec_backend(),
                table@,
                memory@,
                bars@,
                i as int,
            ),
        decreases bars.len() - i,
    {
        let bar = bars[i];
        assert(bars@[i as int].physical_address + bars@[i as int].length <= PHYSICAL_LIMIT);
        if bar.length != 0 {
            if table.map_device_range(
                bar.guest_address,
                bar.physical_address,
                bar.length,
                memory,
            ).is_err() {
                return i;
            }
        }
        i += 1;
    }
    i
}

/// Removes the first `count` BARs of a function from a Domain.
fn restore_pci_mapping(
    table: &NestedPageTable,
    memory: &mut PhysicalMemory,
    bars: &[PciBar; 6],
    count: usize,
) -> (r: bool)
    requires
        old(memory).wf(),
        table.tables_wf(old(memory)@),
        count <= 6,
    ensures
        final(memory).wf(),
        table.tables_wf(final(memory)@),
        (r, final(memory)@) == unmap_bars(
            table.spec_backend(),
            table@,
            old(memory)@,
            bars@,
            0,
            count as int,
        ),
{
    let ghost before = memory@;
    let mut i: usize = 0;
    while i < count
        invariant
            i <= count <= 6,
            before == old(memory)@,
            memory.wf(),
            table.tables_wf(memory@),
            unmap_bars(table.spec_backend(), table@, before, bars@, 0, count as int) == unmap_bars(
                table.spec_backend(),
                table@,
                memory@,
                bars@,
                i as int,
                count as int,
            ),
        decreases count - i,
    {
        let bar = bars[i];
        if bar.length != 0 {
            if table.unmap_device_range(bar.guest_address, bar.length, memory).is_err() {
                return false;
            }
        }
        i += 1;
    }
    true
}

/// Every BAR of the function is made of device registers alone.
pub open spec fn bars_allowed(map: MemoryMapView, bars: Seq<PciBar>) -> bool {
    forall|i: int|
        0 <= i < bars.len() ==> is_device_mmio(
            map,
            (#[trigger] bars[i]).physical_address,
            bars[i].length,
        )
}

fn check_bars(map: &BootMemoryMap, descriptor: &PciDescriptor) -> (r: bool)
    requires
        descriptor.wf(),
    ensures
        r == bars_allowed(map@, descriptor.used_bars()),
{
    let ghost bars = descriptor.used_bars();
    let mut i: usize = 0;
    while i < descriptor.bar_count
        invariant
            i <= descriptor.bar_count <= 6,
            bars == descriptor.used_bars(),
            bars.len() == descriptor.bar_count,
            forall|j: int|
                0 <= j < i ==> is_device_mmio(
                    map@,
                    (#[trigger] bars[j]).physical_address,
                    bars[j].length,
                ),
        decreases descriptor.bar_count - i,
    {
        let bar = descriptor.bars[i];
        assert(bar == bars[i as int]);
        if !map.allows_device_mmio(bar.physical_address, bar.length) {
            return false;
        }
        i += 1;
    }
    true
}

/// What has to be done next to hand a function over.
#[derive(Clone, Copy, Debug, PartialEq, Eq, Structural)]
pub enum ClaimStep {
    /// Read the function's configuration and size its BARs.
    Probe,
    /// Flush what the processor keeps of the Domain's translations.
    Flush,
    /// Take the firmware display's remapping unit over.
    TakeOver,
    /// Connect the requester to the Domain's DMA tables.
    Assign,
    /// Disconnect the requester again.
    Detach,
    /// Silence the function; its first BARs are mapped.
    Silence { mapped: usize, failure: ClaimFailure },
    /// Flush once more; the function is silent or not.
    FlushRollback { silent: bool, failure: ClaimFailure },
    /// The function is the Domain's.
    Claimed,
    /// The function stays where it was.
    Refused(ClaimFailure),
    /// The machine cannot go on.
    Halted(Stage),
}

/// The function was entered for the Domain.
pub open spec fn is_added(
    before: Seq<Assignment>,
    after: Seq<Assignment>,
    domain_id: u32,
    descriptor: PciDescriptor,
) -> bool {
    let slot = free_slot(before, 0);
    &&& insert_error(before, domain_id, descriptor, DEVICE_WINDOW_START, DEVICE_WINDOW_SIZE) is None
    &&& after == before.update(slot, after[slot])
    &&& is_inserted(after[slot], domain_id, descriptor)
}

/// The function signals nobody any more.
pub open spec fn is_deactivated(
    before: Seq<Assignment>,
    after: Seq<Assignment>,
    domain_id: u32,
    requester: u16,
) -> bool {
    let slot = slot_of(before, domain_id, requester, 0);
    &&& slot < 32
    &&& after == before.update(slot, after[slot])
    &&& after[slot] == (Assignment {
        active: false,
        guest_vectors: after[slot].guest_vectors,
        interrupt_count: 0,
        ..before[slot]
    })
    &&& after[slot].guest_vectors@ == seq![0u8, 0u8]
}

/// The function is not the Domain's any more.
pub open spec fn is_removed(
    before: Seq<Assignment>,
    after: Seq<Assignment>,
    domain_id: u32,
    requester: u16,
) -> bool {
    let slot = slot_of(before, domain_id, requester, 0);
    &&& slot < 32
    &&& !before[slot].active
    &&& after == before.update(slot, after[slot])
    &&& is_vacant(after[slot])
}

/// Whether the table can forget the function.
pub open spec fn is_removable(s: Seq<Assignment>, domain_id: u32, requester: u16) -> bool {
    let slot = slot_of(s, domain_id, requester, 0);
    slot < 32 && !s[slot].active
}

impl ClaimStep {
    /// A Domain asks for a function.
    pub fn claim_pci_device(devices: &DeviceTable, domain_id: u32, requester: u16) -> (r: Self)
        ensures
            r == (if claim_verdict(devices@, domain_id, requester) is Ok {
                ClaimStep::Probe
            } else {
                ClaimStep::Refused(ClaimFailure::Policy)
            }),
    {
        if devices.can_claim(domain_id, requester).is_err() {
            ClaimStep::Refused(ClaimFailure::Policy)
        } else {
            ClaimStep::Probe
        }
    }

    /// The function was probed. Enters it for the Domain and maps its registers.
    pub fn probed(
        probe: Result<PciDescriptor, PciError>,
        memory_map: &BootMemoryMap,
        assignments: &mut AssignmentTable,
        table: &NestedPageTable,
        memory: &mut PhysicalMemory,
        domain_id: u32,
    ) -> (r: Self)
        requires
            probe matches Ok(descriptor) ==> descriptor.wf(),
            old(assignments).wf(),
            old(memory).wf(),
            table.tables_wf(old(memory)@),
        ensures
            final(assignments).wf(),
            final(memory).wf(),
            table.tables_wf(final(memory)@),
            match probe {
                Err(error) => {
                    &&& r == ClaimStep::Refused(ClaimFailure::Probe(error))
                    &&& final(assignments)@ == old(assignments)@
                    &&& final(memory)@ == old(memory)@
                },
                Ok(descriptor) => if !bars_allowed(memory_map@, descriptor.used_bars()) {
                    &&& r == ClaimStep::Refused(ClaimFailure::Mmio)
                    &&& final(assignments)@ == old(assignments)@
                    &&& final(memory)@ == old(memory)@
                } else if insert_error(
                    old(assignments)@,
                    domain_id,
                    descriptor,
                    DEVICE_WINDOW_START,
                    DEVICE_WINDOW_SIZE,
                ) is Some {
                    &&& r == ClaimStep::Refused(ClaimFailure::Window)
                    &&& final(assignments)@ == old(assignments)@
                    &&& final(memory)@ == old(memory)@
                } else {
                    let (mapped, m) = map_bars(
                        table.spec_backend(),
                        table@,
                        old(memory)@,
                        identity_bars(descriptor.used_bars()),
                        0,
                    );
                    &&& is_added(old(assignments)@, final(assignments)@, domain_id, descriptor)
                    &&& final(memory)@ == m
                    &&& 0 <= mapped <= descriptor.bar_count
                    &&& r == (if mapped == descriptor.bar_count {
                        ClaimStep::Flush
                    } else {
                        ClaimStep::Silence {
                            mapped: mapped as usize,
                            failure: ClaimFailure::NestedTable,
                        }
                    })
                },
            },
    {
        let descriptor = match probe {
            Ok(descriptor) => descriptor,
            Err(error) => {
                return ClaimStep::Refused(ClaimFailure::Probe(error));
            },
        };
        if !check_bars(memory_map, &descriptor) {
            return ClaimStep::Refused(ClaimFailure::Mmio);
        }
        let bars = match assignments.insert(
            domain_id,
            descriptor,
            DEVICE_WINDOW_START,
            DEVICE_WINDOW_SIZE,
        ) {
            Ok(bars) => bars,
            Err(_) => {
                return ClaimStep::Refused(ClaimFailure::Window);
            },
        };
        proof {
            lemma_inserted_bars(old(assignments)@, domain_id, descriptor);
        }
        let mapped: usize = map_pci_bars(table, memory, &bars);
        if mapped < bars.len() {
            ClaimStep::Silence { mapped, failure: ClaimFailure::NestedTable }
        } else {
            ClaimStep::Flush
        }
    }

    /// The translations were flushed. Without remapping units nothing can be
    /// handed over.
    pub fn flushed(
        flushed: bool,
        has_remapper: bool,
        devices: &DeviceTable,
        assignments: &AssignmentTable,
        domain_id: u32,
        requester: u16,
    ) -> (r: Self)
        requires
            assignments.wf(),
        ensures
            r == (if !flushed {
                ClaimStep::Silence {
                    mapped: bar_count(assignments@, domain_id, requester),
                    failure: ClaimFailure::NestedFlush,
                }
            } else if !has_remapper {
                ClaimStep::Silence {
                    mapped: bar_count(assignments@, domain_id, requester),
                    failure: ClaimFailure::Iommu,
                }
            } else if is_deferred(devices@, requester) {
                ClaimStep::TakeOver
            } else {
                ClaimStep::Assign
            }),
    {
        let mapped: usize = mapped_bars(assignments, domain_id, requester);
        if !flushed {
            return ClaimStep::Silence { mapped, failure: ClaimFailure::NestedFlush };
        }
        if !has_remapper {
            return ClaimStep::Silence { mapped, failure: ClaimFailure::Iommu };
        }
        if devices.is_firmware_deferred(requester) {
            ClaimStep::TakeOver
        } else {
            ClaimStep::Assign
        }
    }

    /// The firmware display's remapping unit was taken over, or was not.
    pub fn taken_over(
        taken_over: bool,
        assignments: &AssignmentTable,
        domain_id: u32,
        requester: u16,
    ) -> (r: Self)
        requires
            assignments.wf(),
        ensures
            r == (if taken_over {
                ClaimStep::Assign
            } else {
                ClaimStep::Silence {
                    mapped: bar_count(assignments@, domain_id, requester),
                    failure: ClaimFailure::IommuHandoff,
                }
            }),
    {
        if taken_over {
            ClaimStep::Assign
        } else {
            let mapped: usize = mapped_bars(assignments, domain_id, requester);
            ClaimStep::Silence { mapped, failure: ClaimFailure::IommuHandoff }
        }
    }

    /// The requester was connected, or was not. Makes the Domain the owner.
    pub fn assigned(
        assigned: bool,
        devices: &mut DeviceTable,
        assignments: &AssignmentTable,
        domain_id: u32,
        requester: u16,
    ) -> (r: Self)
        requires
            assignments.wf(),
        ensures
            old(devices).wf() ==> final(devices).wf(),
            if !assigned {
                &&& r == (ClaimStep::Silence {
                    mapped: bar_count(assignments@, domain_id, requester),
                    failure: ClaimFailure::DmaMap,
                })
                &&& final(devices)@ == old(devices)@
            } else if claim_verdict(old(devices)@, domain_id, requester) is Ok {
                &&& r == ClaimStep::Claimed
                &&& final(devices)@ == with_owner(
                    old(devices)@,
                    requester,
                    PCI_DEVICE_STATE_CLAIMED_DISABLED,
                    domain_id,
                )
            } else {
                &&& r == ClaimStep::Detach
                &&& final(devices)@ == old(devices)@
            },
    {
        if !assigned {
            let mapped: usize = mapped_bars(assignments, domain_id, requester);
            return ClaimStep::Silence { mapped, failure: ClaimFailure::DmaMap };
        }
        if devices.claim(domain_id, requester).is_err() {
            ClaimStep::Detach
        } else {
            ClaimStep::Claimed
        }
    }

    /// The requester was disconnected again, or was not.
    pub fn detached(
        detached: bool,
        assignments: &AssignmentTable,
        domain_id: u32,
        requester: u16,
    ) -> (r: Self)
        requires
            assignments.wf(),
        ensures
            r == (if detached {
                ClaimStep::Silence {
                    mapped: bar_count(assignments@, domain_id, requester),
                    failure: ClaimFailure::State,
                }
            } else {
                ClaimStep::Halted(Stage::PciDmaRollback)
            }),
    {
        if detached {
            let mapped: usize = mapped_bars(assignments, domain_id, requester);
            ClaimStep::Silence { mapped, failure: ClaimFailure::State }
        } else {
            ClaimStep::Halted(Stage::PciDmaRollback)
        }
    }

    /// The function of a refused claim was silenced, or was not. Removes the BARs
    /// that are mapped. Where one cannot be removed, the function is forgotten all the
    /// same before the machine stops.
    pub fn rollback_pci_mapping(
        silenced: bool,
        mapped: usize,
        failure: ClaimFailure,
        assignments: &mut AssignmentTable,
        table: &NestedPageTable,
        memory: &mut PhysicalMemory,
        domain_id: u32,
        requester: u16,
    ) -> (r: Self)
        requires
            mapped <= 6,
            old(assignments).wf(),
            old(memory).wf(),
            table.tables_wf(old(memory)@),
        ensures
            final(assignments).wf(),
            final(memory).wf(),
            table.tables_wf(final(memory)@),
            ({
                let slot = slot_of(old(assignments)@, domain_id, requester, 0);
                if slot >= 32 {
                    &&& r == ClaimStep::Halted(Stage::PciMappingRollback)
                    &&& final(assignments)@ == old(assignments)@
                    &&& final(memory)@ == old(memory)@
                } else {
                    let (unmapped, m) = unmap_bars(
                        table.spec_backend(),
                        table@,
                        old(memory)@,
                        old(assignments)@[slot].descriptor.bars@,
                        0,
                        mapped as int,
                    );
                    &&& final(memory)@ == m
                    &&& r == (if unmapped {
                        ClaimStep::FlushRollback { silent: silenced, failure }
                    } else {
                        ClaimStep::Halted(Stage::PciMappingRollback)
                    })
                    &&& if !silenced && (unmapped || old(assignments)@[slot].active) {
                        final(assignments)@ == old(assignments)@
                    } else if unmapped {
                        is_deactivated(
                            old(assignments)@,
                            final(assignments)@,
                            domain_id,
                            requester,
                        )
                    } else {
                        &&& final(assignments)@ == old(assignments)@.update(
                            slot,
                            final(assignments)@[slot],
                        )
                        &&& is_vacant(final(assignments)@[slot])
                    }
                }
            }),
    {
        let bars = match assignments.plan_deactivation(domain_id, requester) {
            Ok(plan) => plan.0.bars,
            Err(_) => {
                return ClaimStep::Halted(Stage::PciMappingRollback);
            },
        };
        if silenced {
            let _ = assignments.deactivate(domain_id, requester);
        }
        if restore_pci_mapping(table, memory, &bars, mapped) {
            ClaimStep::FlushRollback { silent: silenced, failure }
        } else {
            let ghost silent = assignments@;
            proof {
                lemma_slot_is_found(old(assignments)@, domain_id, requester, 0);
                let slot = slot_of(old(assignments)@, domain_id, requester, 0);
                assert(silent =~= old(assignments)@.update(slot, silent[slot]));
                lemma_slot_is_kept(old(assignments)@, silent, domain_id, requester);
            }
            let _ = assignments.remove(domain_id, requester);
            ClaimStep::Halted(Stage::PciMappingRollback)
        }
    }

    /// The translations of a refused claim were flushed, or were not. Forgets the
    /// function.
    pub fn rolled_back(
        flushed: bool,
        silent: bool,
        failure: ClaimFailure,
        assignments: &mut AssignmentTable,
        domain_id: u32,
        requester: u16,
    ) -> (r: Self)
        requires
            old(assignments).wf(),
        ensures
            final(assignments).wf(),
            if is_removable(old(assignments)@, domain_id, requester) {
                is_removed(old(assignments)@, final(assignments)@, domain_id, requester)
            } else {
                final(assignments)@ == old(assignments)@
            },
            r == (if silent && flushed && is_removable(
                old(assignments)@,
                domain_id,
                requester,
            ) {
                ClaimStep::Refused(failure)
            } else {
                ClaimStep::Halted(Stage::PciMappingRollback)
            }),
    {
        let removed = assignments.remove(domain_id, requester).is_ok();
        if silent && flushed && removed {
            ClaimStep::Refused(failure)
        } else {
            ClaimStep::Halted(Stage::PciMappingRollback)
        }
    }
}

/// How many BARs the function of a Domain has.
pub open spec fn bar_count(s: Seq<Assignment>, domain_id: u32, requester: u16) -> usize {
    let slot = slot_of(s, domain_id, requester, 0);
    if slot < 32 {
        s[slot].descriptor.bar_count
    } else {
        0
    }
}

fn mapped_bars(assignments: &AssignmentTable, domain_id: u32, requester: u16) -> (r: usize)
    requires
        assignments.wf(),
    ensures
        r == bar_count(assignments@, domain_id, requester),
        r <= 6,
{
    proof {
        lemma_slot_is_found(assignments@, domain_id, requester, 0);
    }
    match assignments.plan_deactivation(domain_id, requester) {
        Ok(plan) => plan.0.bar_count,
        Err(_) => 0,
    }
}

proof fn lemma_slot_is_found(s: Seq<Assignment>, domain_id: u32, requester: u16, from: int)
    requires
        0 <= from <= s.len(),
    ensures
        from <= slot_of(s, domain_id, requester, from) <= s.len(),
        slot_of(s, domain_id, requester, from) < s.len() ==> is_assigned(
            s[slot_of(s, domain_id, requester, from)],
            domain_id,
            requester,
        ),
        forall|i: int|
            from <= i < slot_of(s, domain_id, requester, from) ==> !is_assigned(
                #[trigger] s[i],
                domain_id,
                requester,
            ),
    decreases s.len() - from,
{
    if from < s.len() && !is_assigned(s[from], domain_id, requester) {
        lemma_slot_is_found(s, domain_id, requester, from + 1);
    }
}

/// A function is found where it was, as long as its slot keeps naming it.
proof fn lemma_slot_is_kept(
    before: Seq<Assignment>,
    after: Seq<Assignment>,
    domain_id: u32,
    requester: u16,
)
    requires
        ({
            let slot = slot_of(before, domain_id, requester, 0);
            &&& slot < before.len()
            &&& after == before.update(slot, after[slot])
            &&& is_assigned(after[slot], domain_id, requester)
        }),
    ensures
        slot_of(after, domain_id, requester, 0) == slot_of(before, domain_id, requester, 0),
{
    lemma_slot_is_found(before, domain_id, requester, 0);
    lemma_slot_is_found(after, domain_id, requester, 0);
    let slot = slot_of(before, domain_id, requester, 0);
    let found = slot_of(after, domain_id, requester, 0);
    if found < slot {
        assert(after[found] == before[found]);
    }
}

/// BARs that fit into the window lie where the machine has addresses.
proof fn lemma_inserted_bars(s: Seq<Assignment>, domain_id: u32, descriptor: PciDescriptor)
    requires
        descriptor.wf(),
        insert_error(s, domain_id, descriptor, DEVICE_WINDOW_START, DEVICE_WINDOW_SIZE) is None,
    ensures
        are_addressable(identity_bars(descriptor.used_bars())),
{
    let bars = identity_bars(descriptor.used_bars());
    assert forall|i: int| 0 <= i < bars.len() implies (#[trigger] bars[i]).physical_address
        + bars[i].length <= PHYSICAL_LIMIT by {
        assert(bar_in_window(
            descriptor.bars@[i],
            DEVICE_WINDOW_START as int,
            DEVICE_WINDOW_SIZE as int,
        ));
    }
}

/// What has to be done next to take a function back.
#[derive(Clone, Copy, Debug, PartialEq, Eq, Structural)]
pub enum ReleaseStep {
    /// Silence and reset the function.
    Silence,
    /// Disconnect the requester from the Domain's DMA tables.
    Detach,
    /// Flush what the processor keeps of the Domain's translations.
    Flush,
    /// The function is nobody's.
    Released,
    /// The Domain keeps the function.
    Refused,
    /// The machine cannot go on.
    Halted(Stage),
}

impl ReleaseStep {
    /// A Domain gives a function back, or has it taken away.
    pub fn release_pci_device(devices: &DeviceTable, domain_id: u32, requester: u16) -> (r: Self)
        ensures
            r == (if release_verdict(devices@, domain_id, requester) is Ok {
                ReleaseStep::Silence
            } else {
                ReleaseStep::Refused
            }),
    {
        if devices.can_release(domain_id, requester).is_err() {
            ReleaseStep::Refused
        } else {
            ReleaseStep::Silence
        }
    }

    /// The function was silenced, or was not.
    pub fn silenced(
        silenced: bool,
        has_remapper: bool,
        assignments: &mut AssignmentTable,
        domain_id: u32,
        requester: u16,
    ) -> (r: Self)
        requires
            old(assignments).wf(),
        ensures
            final(assignments).wf(),
            if !silenced || slot_of(old(assignments)@, domain_id, requester, 0) >= 32 {
                r == ReleaseStep::Refused && final(assignments)@ == old(assignments)@
            } else {
                &&& is_deactivated(
                    old(assignments)@,
                    final(assignments)@,
                    domain_id,
                    requester,
                )
                &&& r == (if has_remapper {
                    ReleaseStep::Detach
                } else {
                    ReleaseStep::Refused
                })
            },
    {
        if !silenced {
            return ReleaseStep::Refused;
        }
        if assignments.deactivate(domain_id, requester).is_err() {
            return ReleaseStep::Refused;
        }
        if has_remapper {
            ReleaseStep::Detach
        } else {
            ReleaseStep::Refused
        }
    }

    /// The requester was disconnected, or was not. Removes the function's
    /// registers from the Domain.
    pub fn detached(
        detached: bool,
        assignments: &AssignmentTable,
        table: &NestedPageTable,
        memory: &mut PhysicalMemory,
        domain_id: u32,
        requester: u16,
    ) -> (r: Self)
        requires
            assignments.wf(),
            old(memory).wf(),
            table.tables_wf(old(memory)@),
        ensures
            final(memory).wf(),
            table.tables_wf(final(memory)@),
            ({
                let slot = slot_of(assignments@, domain_id, requester, 0);
                if !detached {
                    r == ReleaseStep::Refused && final(memory)@ == old(memory)@
                } else if slot >= 32 {
                    &&& r == ReleaseStep::Halted(Stage::PciMappingRestore)
                    &&& final(memory)@ == old(memory)@
                } else {
                    let (unmapped, m) = unmap_bars(
                        table.spec_backend(),
                        table@,
                        old(memory)@,
                        assignments@[slot].descriptor.bars@,
                        0,
                        6,
                    );
                    &&& final(memory)@ == m
                    &&& r == (if unmapped {
                        ReleaseStep::Flush
                    } else {
                        ReleaseStep::Halted(Stage::PciMappingRestore)
                    })
                }
            }),
    {
        if !detached {
            return ReleaseStep::Refused;
        }
        let bars = match assignments.plan_deactivation(domain_id, requester) {
            Ok(plan) => plan.0.bars,
            Err(_) => {
                return ReleaseStep::Halted(Stage::PciMappingRestore);
            },
        };
        if restore_pci_mapping(table, memory, &bars, 6) {
            ReleaseStep::Flush
        } else {
            ReleaseStep::Halted(Stage::PciMappingRestore)
        }
    }

    /// The translations were flushed, or were not. The Domain loses the function.
    pub fn flushed(
        flushed: bool,
        assignments: &mut AssignmentTable,
        devices: &mut DeviceTable,
        domain_id: u32,
        requester: u16,
    ) -> (r: Self)
        requires
            old(assignments).wf(),
        ensures
            final(assignments).wf(),
            old(devices).wf() ==> final(devices).wf(),
            if !flushed {
                &&& r == ReleaseStep::Halted(Stage::PciMappingRestore)
                &&& final(assignments)@ == old(assignments)@
                &&& final(devices)@ == old(devices)@
            } else if !is_removable(old(assignments)@, domain_id, requester) {
                &&& r == ReleaseStep::Halted(Stage::PciReleaseState)
                &&& final(assignments)@ == old(assignments)@
                &&& final(devices)@ == old(devices)@
            } else {
                &&& is_removed(old(assignments)@, final(assignments)@, domain_id, requester)
                &&& if release_verdict(old(devices)@, domain_id, requester) is Ok {
                    &&& r == ReleaseStep::Released
                    &&& final(devices)@ == with_owner(
                        old(devices)@,
                        requester,
                        PCI_DEVICE_STATE_QUARANTINED,
                        0,
                    )
                } else {
                    &&& r == ReleaseStep::Halted(Stage::PciReleaseState)
                    &&& final(devices)@ == old(devices)@
                }
            },
    {
        if !flushed {
            return ReleaseStep::Halted(Stage::PciMappingRestore);
        }
        if assignments.remove(domain_id, requester).is_err() {
            return ReleaseStep::Halted(Stage::PciReleaseState);
        }
        if devices.release(domain_id, requester).is_err() {
            return ReleaseStep::Halted(Stage::PciReleaseState);
        }
        ReleaseStep::Released
    }
}

/// The guest address is one of BAR `i`.
pub open spec fn in_bar(bars: Seq<PciBar>, i: int, g: int) -> bool {
    bars[i].guest_address <= g < bars[i].guest_address + bars[i].length
}

/// The BARs from `from` up to `to` are mapped, each by whole leaves, and apart
/// from each other.
spec fn laid_out(
    r: NestedPageResources,
    m: Map<int, u64>,
    bars: Seq<PciBar>,
    from: int,
    to: int,
) -> bool {
    &&& forall|i: int|
        from <= i < to && (#[trigger] bars[i]).length != 0 ==> {
            &&& is_device_range(r, bars[i].guest_address, bars[i].length)
            &&& bars[i].guest_address + bars[i].length <= GIGABYTE * r.level2_pages
            &&& tiled(r, m, bars[i].guest_address as int, bars[i].length as int)
        }
    &&& forall|i: int, j: int, g: int|
        from <= i < j < to && #[trigger] in_bar(bars, i, g) ==> !#[trigger] in_bar(bars, j, g)
}

/// Outside the BARs from `from` up to `to` nothing that is mapped differs.
spec fn same_outside_bars(
    r: NestedPageResources,
    m: Map<int, u64>,
    n: Map<int, u64>,
    bars: Seq<PciBar>,
    from: int,
    to: int,
) -> bool {
    forall|g: int|
        0 <= g && reaches(r, g) && (forall|i: int| from <= i < to ==> !in_bar(bars, i, g))
            ==> #[trigger] leaf(r, n, g) == leaf(r, m, g)
}

/// Nothing is mapped in the BARs from `from` up to `to`.
spec fn bars_empty(
    r: NestedPageResources,
    m: Map<int, u64>,
    bars: Seq<PciBar>,
    from: int,
    to: int,
) -> bool {
    forall|i: int, g: int|
        from <= i < to && #[trigger] in_bar(bars, i, g) ==> #[trigger] leaf(r, m, g) is None
}

/// The registers of the BARs from `from` up to `to` are reached.
spec fn bars_mapped(
    b: BackendKind,
    r: NestedPageResources,
    m: Map<int, u64>,
    bars: Seq<PciBar>,
    from: int,
    to: int,
) -> bool {
    forall|i: int, g: int|
        from <= i < to && #[trigger] in_bar(bars, i, g) ==> points_to(
            #[trigger] leaf(r, m, g),
            b,
            g,
            bars[i].physical_address + (g - bars[i].guest_address),
        )
}

proof fn lemma_map_bars(
    b: BackendKind,
    r: NestedPageResources,
    m: Map<int, u64>,
    bars: Seq<PciBar>,
    from: int,
)
    requires
        tables_wf(b, r, m),
        are_addressable(bars),
        0 <= from <= bars.len(),
    ensures
        ({
            let (to, n) = map_bars(b, r, m, bars, from);
            &&& from <= to <= bars.len()
            &&& tables_wf(b, r, n)
            &&& laid_out(r, n, bars, from, to)
            &&& bars_mapped(b, r, n, bars, from, to)
            &&& bars_empty(r, m, bars, from, to)
            &&& same_outside_bars(r, m, n, bars, from, to)
        }),
    decreases bars.len() - from,
{
    let (to, n) = map_bars(b, r, m, bars, from);
    if from < bars.len() {
        let bar = bars[from];
        if bar.length == 0 {
            lemma_map_bars(b, r, m, bars, from + 1);
            assert forall|g: int|
                0 <= g && reaches(r, g) && (forall|i: int| from <= i < to ==> !in_bar(bars, i, g))
                implies #[trigger] leaf(r, n, g) == leaf(r, m, g) by {
                assert(forall|i: int| from + 1 <= i < to ==> !in_bar(bars, i, g));
            }
        } else {
            let (ok, next) = map_range(
                b,
                r,
                m,
                bar.guest_address,
                bar.physical_address,
                bar.length,
            );
            law_map_range_is_transactional(
                b,
                r,
                m,
                bar.guest_address,
                bar.physical_address,
                bar.length,
            );
            if ok {
                let guest = bar.guest_address as int;
                lemma_map_leaves(
                    b,
                    r,
                    m,
                    guest,
                    bar.physical_address as int,
                    bar.length as int,
                );
                lemma_map_bars(b, r, next, bars, from + 1);
                lemma_first_bar(b, r, m, next, n, bars, from, to);
            } else {
                assert(to == from);
                assert(same_leaves(r, m, n));
            }
        }
    }
}

/// A BAR that is mapped first stays as it is while others are mapped.
proof fn lemma_first_bar(
    b: BackendKind,
    r: NestedPageResources,
    m: Map<int, u64>,
    next: Map<int, u64>,
    n: Map<int, u64>,
    bars: Seq<PciBar>,
    from: int,
    to: int,
)
    requires
        0 <= from < to <= bars.len(),
        bars[from].length != 0,
        is_device_range(r, bars[from].guest_address, bars[from].length),
        bars[from].guest_address + bars[from].length <= GIGABYTE * r.level2_pages,
        tiled(r, next, bars[from].guest_address as int, bars[from].length as int),
        no_leaves(r, m, bars[from].guest_address as int, bars[from].length as int),
        maps_range(
            b,
            r,
            next,
            bars[from].guest_address as int,
            bars[from].physical_address as int,
            bars[from].length as int,
        ),
        same_leaves_outside(
            r,
            m,
            next,
            bars[from].guest_address as int,
            bars[from].length as int,
        ),
        laid_out(r, n, bars, from + 1, to),
        bars_mapped(b, r, n, bars, from + 1, to),
        bars_empty(r, next, bars, from + 1, to),
        same_outside_bars(r, next, n, bars, from + 1, to),
    ensures
        laid_out(r, n, bars, from, to),
        bars_mapped(b, r, n, bars, from, to),
        bars_empty(r, m, bars, from, to),
        same_outside_bars(r, m, n, bars, from, to),
{
    let guest = bars[from].guest_address as int;
    let len = bars[from].length as int;
    assert forall|j: int, g: int|
        from < j < to && #[trigger] in_bar(bars, from, g) && #[trigger] in_bar(
            bars,
            j,
            g,
        ) implies false by {
        assert(points_to(
            leaf(r, next, g),
            b,
            g,
            bars[from].physical_address + (g - bars[from].guest_address),
        ));
        assert(leaf(r, next, g) is None);
        reveal(points_to);
    }
    assert forall|g: int| guest <= g < guest + len implies #[trigger] leaf(r, n, g) == leaf(
        r,
        next,
        g,
    ) by {
        lemma_reach(r, g);
        assert(in_bar(bars, from, g));
    }
    lemma_tiled_frame(r, next, n, guest, len);
    assert forall|i: int, g: int|
        from <= i < to && #[trigger] in_bar(bars, i, g) implies #[trigger] leaf(r, m, g) is None by {
        if i > from {
            assert(leaf(r, next, g) is None);
            if in_bar(bars, from, g) {
                assert(false);
            }
            lemma_reach(r, g);
            assert(leaf(r, next, g) == leaf(r, m, g));
        }
    }
    assert forall|g: int|
        0 <= g && reaches(r, g) && (forall|i: int| from <= i < to ==> !in_bar(bars, i, g)) implies
        #[trigger] leaf(r, n, g) == leaf(r, m, g) by {
        assert(!in_bar(bars, from, g));
        assert(leaf(r, next, g) == leaf(r, m, g));
        assert(forall|i: int| from + 1 <= i < to ==> !in_bar(bars, i, g));
    }
}

proof fn lemma_unmap_bars(
    b: BackendKind,
    r: NestedPageResources,
    m: Map<int, u64>,
    bars: Seq<PciBar>,
    from: int,
    to: int,
)
    requires
        tables_wf(b, r, m),
        0 <= from <= to <= bars.len(),
        laid_out(r, m, bars, from, to),
    ensures
        ({
            let (ok, u) = unmap_bars(b, r, m, bars, from, to);
            &&& ok
            &&& tables_wf(b, r, u)
            &&& bars_empty(r, u, bars, from, to)
            &&& same_outside_bars(r, m, u, bars, from, to)
        }),
    decreases to - from,
{
    if from < to {
        let bar = bars[from];
        let u = unmap_bars(b, r, m, bars, from, to).1;
        if bar.length == 0 {
            lemma_unmap_bars(b, r, m, bars, from + 1, to);
            assert forall|g: int|
                0 <= g && reaches(r, g) && (forall|i: int| from <= i < to ==> !in_bar(bars, i, g))
                implies #[trigger] leaf(r, u, g) == leaf(r, m, g) by {
                assert(forall|i: int| from + 1 <= i < to ==> !in_bar(bars, i, g));
            }
        } else {
            let guest = bar.guest_address as int;
            let len = bar.length as int;
            lemma_unmap_tiled(b, r, m, guest, len);
            let next = unmap_leaves(b, r, m, guest, len).1;
            assert forall|i: int|
                from + 1 <= i < to && (#[trigger] bars[i]).length != 0 implies tiled(
                r,
                next,
                bars[i].guest_address as int,
                bars[i].length as int,
            ) by {
                let start = bars[i].guest_address as int;
                assert forall|g: int| start <= g < start + bars[i].length implies #[trigger] leaf(
                    r,
                    next,
                    g,
                ) == leaf(r, m, g) by {
                    lemma_reach(r, g);
                    assert(in_bar(bars, i, g));
                    if in_bar(bars, from, g) {
                        assert(false);
                    }
                }
                lemma_tiled_frame(r, m, next, start, bars[i].length as int);
            }
            lemma_unmap_bars(b, r, next, bars, from + 1, to);
            assert forall|i: int, g: int|
                from <= i < to && #[trigger] in_bar(bars, i, g) implies #[trigger] leaf(
                r,
                u,
                g,
            ) is None by {
                if i == from {
                    lemma_reach(r, g);
                    assert(leaf(r, next, g) is None);
                    assert forall|j: int| from + 1 <= j < to implies !in_bar(bars, j, g) by {
                        assert(in_bar(bars, from, g));
                    }
                }
            }
            assert forall|g: int|
                0 <= g && reaches(r, g) && (forall|i: int| from <= i < to ==> !in_bar(bars, i, g))
                implies #[trigger] leaf(r, u, g) == leaf(r, m, g) by {
                assert(!in_bar(bars, from, g));
                assert(leaf(r, next, g) == leaf(r, m, g));
                assert(forall|i: int| from + 1 <= i < to ==> !in_bar(bars, i, g));
            }
        }
    }
}

/// Removing the BARs that were mapped for a claim succeeds, and every guest address
/// translates as it did before the claim: nothing of a refused claim stays visible.
pub proof fn law_unmapping_bars_undoes_mapping_them(
    b: BackendKind,
    r: NestedPageResources,
    m: Map<int, u64>,
    bars: Seq<PciBar>,
)
    requires
        tables_wf(b, r, m),
        are_addressable(bars),
    ensures
        ({
            let (mapped, n) = map_bars(b, r, m, bars, 0);
            let (ok, u) = unmap_bars(b, r, n, bars, 0, mapped);
            &&& ok
            &&& tables_wf(b, r, u)
            &&& same_leaves(r, m, u)
        }),
{
    lemma_map_bars(b, r, m, bars, 0);
    let (mapped, n) = map_bars(b, r, m, bars, 0);
    lemma_unmap_bars(b, r, n, bars, 0, mapped);
    let u = unmap_bars(b, r, n, bars, 0, mapped).1;
    assert forall|g: int| 0 <= g && reaches(r, g) implies #[trigger] leaf(r, u, g) == leaf(
        r,
        m,
        g,
    ) by {
        if exists|i: int| 0 <= i < mapped && in_bar(bars, i, g) {
            let i = choose|i: int| 0 <= i < mapped && in_bar(bars, i, g);
            assert(leaf(r, u, g) is None);
            assert(leaf(r, m, g) is None);
        } else {
            assert(leaf(r, n, g) == leaf(r, m, g));
        }
    }
}

/// Slots without a length are passed over.
proof fn lemma_unmap_used_bars(
    b: BackendKind,
    r: NestedPageResources,
    m: Map<int, u64>,
    slots: Seq<PciBar>,
    bars: Seq<PciBar>,
    from: int,
)
    requires
        0 <= from <= slots.len(),
        bars.len() <= slots.len(),
        bars == slots.take(bars.len() as int),
        forall|i: int| bars.len() <= i < slots.len() ==> (#[trigger] slots[i]).length == 0,
    ensures
        unmap_bars(b, r, m, slots, from, slots.len() as int) == unmap_bars(
            b,
            r,
            m,
            bars,
            from,
            bars.len() as int,
        ),
    decreases slots.len() - from,
{
    if from < slots.len() {
        if from < bars.len() {
            assert(bars[from] == slots[from]);
            let next = unmap_leaves(
                b,
                r,
                m,
                bars[from].guest_address as int,
                bars[from].length as int,
            ).1;
            lemma_unmap_used_bars(b, r, next, slots, bars, from + 1);
        }
        lemma_unmap_used_bars(b, r, m, slots, bars, from + 1);
    }
}

/// Giving a function back undoes its claim. Of a function whose BARs were all mapped,
/// the record's slots can be removed from the Domain, and every guest address then
/// translates as it did before the claim: nothing of the function stays visible, and
/// nothing else is removed with it.
pub proof fn law_release_undoes_the_mapping(
    b: BackendKind,
    r: NestedPageResources,
    m: Map<int, u64>,
    before: Seq<Assignment>,
    added: Seq<Assignment>,
    silent: Seq<Assignment>,
    domain_id: u32,
    descriptor: PciDescriptor,
)
    requires
        tables_wf(b, r, m),
        assignments_wf(before),
        descriptor.wf(),
        insert_error(
            before,
            domain_id,
            descriptor,
            DEVICE_WINDOW_START,
            DEVICE_WINDOW_SIZE,
        ) is None,
        is_added(before, added, domain_id, descriptor),
        map_bars(b, r, m, identity_bars(descriptor.used_bars()), 0).0 == descriptor.bar_count,
        is_deactivated(added, silent, domain_id, descriptor.requester),
    ensures
        ({
            let n = map_bars(b, r, m, identity_bars(descriptor.used_bars()), 0).1;
            let slot = slot_of(silent, domain_id, descriptor.requester, 0);
            let (ok, u) = unmap_bars(b, r, n, silent[slot].descriptor.bars@, 0, 6);
            &&& 0 <= slot < 32
            &&& ok
            &&& tables_wf(b, r, u)
            &&& same_leaves(r, m, u)
        }),
{
    let bars = identity_bars(descriptor.used_bars());
    let n = map_bars(b, r, m, bars, 0).1;
    lemma_added(before, added, domain_id, descriptor);
    lemma_slot_is_kept(added, silent, domain_id, descriptor.requester);
    lemma_inserted_bars(before, domain_id, descriptor);
    law_unmapping_bars_undoes_mapping_them(b, r, m, bars);
    let slot = slot_of(silent, domain_id, descriptor.requester, 0);
    let record = silent[slot].descriptor;
    assert(is_inserted(added[slot], domain_id, descriptor));
    assert(record.used_bars() == bars);
    lemma_unmap_used_bars(b, r, n, record.bars@, bars, 0);
}

/// Once all BARs of a function are mapped, the Domain reaches each of their
/// registers at the address that the firmware chose, and nothing else has moved.
pub proof fn law_claimed_registers_are_reached(
    b: BackendKind,
    r: NestedPageResources,
    m: Map<int, u64>,
    bars: Seq<PciBar>,
    g: int,
)
    requires
        tables_wf(b, r, m),
        are_addressable(bars),
        map_bars(b, r, m, bars, 0).0 == bars.len(),
        0 <= g,
        reaches(r, g),
    ensures
        ({
            let n = map_bars(b, r, m, bars, 0).1;
            &&& forall|i: int|
                0 <= i < bars.len() && #[trigger] in_bar(bars, i, g) ==> {
                    &&& points_to(
                        leaf(r, n, g),
                        b,
                        g,
                        bars[i].physical_address + (g - bars[i].guest_address),
                    )
                    &&& leaf(r, m, g) is None
                }
            &&& (forall|i: int| 0 <= i < bars.len() ==> !in_bar(bars, i, g)) ==> leaf(r, n, g)
                == leaf(r, m, g)
        }),
{
    lemma_map_bars(b, r, m, bars, 0);
}

/// Where a function was just entered, the table finds it, and it holds the BARs that
/// were mapped.
proof fn lemma_added(
    before: Seq<Assignment>,
    after: Seq<Assignment>,
    domain_id: u32,
    descriptor: PciDescriptor,
)
    requires
        assignments_wf(before),
        descriptor.wf(),
        is_added(before, after, domain_id, descriptor),
    ensures
        0 <= free_slot(before, 0) < 32,
        !before[free_slot(before, 0)].valid,
        slot_of(after, domain_id, descriptor.requester, 0) == free_slot(before, 0),
{
    let slot = free_slot(before, 0);
    lemma_free_slot(before, 0);
    lemma_slot_is_found(after, domain_id, descriptor.requester, 0);
    let found = slot_of(after, domain_id, descriptor.requester, 0);
    assert(is_assigned(after[slot], domain_id, descriptor.requester));
    assert(found <= slot);
    if found < slot {
        assert(after[found] == before[found]);
        assert(holds_requester(before[found], descriptor.requester));
    }
}

/// A claim that fails after the function was entered can always be taken back: the
/// table finds the function, removes it once it is silent, and then assigns the
/// same functions to the same Domains as before.
pub proof fn law_rollback_forgets_the_function(
    before: Seq<Assignment>,
    added: Seq<Assignment>,
    silent: Seq<Assignment>,
    after: Seq<Assignment>,
    domain_id: u32,
    descriptor: PciDescriptor,
)
    requires
        assignments_wf(before),
        descriptor.wf(),
        is_added(before, added, domain_id, descriptor),
        is_deactivated(added, silent, domain_id, descriptor.requester),
        is_removed(silent, after, domain_id, descriptor.requester),
    ensures
        slot_of(added, domain_id, descriptor.requester, 0) < 32,
        is_removable(silent, domain_id, descriptor.requester),
        forall|i: int|
            0 <= i < 32 ==> (#[trigger] after[i]).valid == before[i].valid && (before[i].valid
                ==> after[i] == before[i]),
{
    let slot = free_slot(before, 0);
    lemma_added(before, added, domain_id, descriptor);
    assert(silent.len() == added.len());
    lemma_slot_is_found(silent, domain_id, descriptor.requester, 0);
    let found = slot_of(silent, domain_id, descriptor.requester, 0);
    lemma_slot_is_found(added, domain_id, descriptor.requester, 0);
    assert(is_assigned(silent[slot], domain_id, descriptor.requester));
    if found < slot {
        assert(silent[found] == added[found]);
    }
    assert(found == slot);
}

} // verus!
