//! DMA remapping: which units exist, what their tables say, how they are driven.

pub mod acpi;
pub mod registers;
pub mod remapper;
pub mod tables;
pub mod walk;

use vstd::prelude::*;

verus! {

pub const MAX_IOMMU_UNITS: usize = 16;

pub const MAX_UNIT_SCOPES: usize = 8;

pub const MAX_RESERVED_MAPPINGS: usize = 32;

pub const INTEL_TABLE_PAGES: usize = 96;

pub const AMD_DEVICE_TABLE_PAGES: usize = 512;

pub const DOMAIN_TABLE_PAGES: usize = 96;

pub const AMD_COMMAND_BUFFER_PAGES: usize = 2;

pub const MAX_DOMAIN_MAPPINGS: usize = 8;

#[derive(Clone, Copy, Debug, PartialEq, Eq, Structural)]
pub enum Error {
    InvalidRsdp,
    InvalidTable,
    TooManyUnits,
    TooManyReservedMappings,
    InvalidResources,
    UnsupportedHardware,
    RegisterWriteFailed,
    CommandTimeout,
    DeviceNotCovered,
    ReservedDevice,
    DomainIdUnavailable,
    TableExhausted,
}

#[derive(Clone, Copy, Debug, PartialEq, Eq, Structural)]
pub enum IommuKind {
    IntelVtd,
    AmdVi,
}

/// A remapping unit and the functions that firmware names for it.
#[derive(Debug, PartialEq, Eq)]
pub struct IommuUnit {
    pub segment: u16,
    pub register_base: u64,
    pub include_all: bool,
    pub scope_requesters: Vec<u16>,
}

/// What a remapping unit is, as a value.
#[verifier::ext_equal]
pub struct UnitView {
    pub segment: u16,
    pub register_base: u64,
    pub include_all: bool,
    pub scopes: Seq<u16>,
}

impl View for IommuUnit {
    type V = UnitView;

    open spec fn view(&self) -> UnitView {
        UnitView {
            segment: self.segment,
            register_base: self.register_base,
            include_all: self.include_all,
            scopes: self.scope_requesters@,
        }
    }
}

/// A range that firmware wants a function to reach by its physical address.
#[derive(Clone, Copy, Debug, PartialEq, Eq, Structural)]
pub struct ReservedMapping {
    pub segment: u16,
    pub requester: u16,
    pub base: u64,
    pub limit: u64,
}

/// The remapping units of the machine.
#[derive(Debug, PartialEq, Eq)]
pub struct IommuTopology {
    kind: IommuKind,
    units: Vec<IommuUnit>,
    reserved_mappings: Vec<ReservedMapping>,
}

/// The remapping units of the machine, as a value.
#[verifier::ext_equal]
pub struct TopologyView {
    pub kind: IommuKind,
    pub units: Seq<UnitView>,
    pub reserved: Seq<ReservedMapping>,
}

impl View for IommuTopology {
    type V = TopologyView;

    closed spec fn view(&self) -> TopologyView {
        TopologyView {
            kind: self.kind,
            units: self.units@.map_values(|u: IommuUnit| u@),
            reserved: self.reserved_mappings@,
        }
    }
}

pub open spec fn empty_topology(kind: IommuKind) -> TopologyView {
    TopologyView { kind, units: Seq::empty(), reserved: Seq::empty() }
}

/// Some unit names the function itself.
pub open spec fn has_explicit_scope(t: TopologyView, segment: u16, requester: u16) -> bool {
    exists|i: int|
        0 <= i < t.units.len() && (#[trigger] t.units[i]).segment == segment
            && t.units[i].scopes.contains(requester)
}

/// Whether a unit is authoritative for a function: an explicit scope takes
/// precedence over a unit that covers the rest of its segment.
pub open spec fn handles(t: TopologyView, index: int, segment: u16, requester: u16) -> bool {
    let unit = t.units[index];
    &&& unit.segment == segment
    &&& t.kind == IommuKind::AmdVi || (if has_explicit_scope(t, segment, requester) {
        unit.scopes.contains(requester)
    } else {
        unit.include_all
    })
}

pub open spec fn is_covered(t: TopologyView, segment: u16, requester: u16) -> bool {
    exists|i: int| 0 <= i < t.units.len() && #[trigger] handles(t, i, segment, requester)
}

/// Two descriptions of one unit: its registers are found in the same place.
pub open spec fn is_same_unit(a: UnitView, b: UnitView) -> bool {
    a.segment == b.segment && a.register_base == b.register_base
}

/// One of the units is this one.
pub open spec fn is_known(units: Seq<UnitView>, unit: UnitView) -> bool {
    exists|i: int| 0 <= i < units.len() && is_same_unit(#[trigger] units[i], unit)
}

/// Adds a unit, unless it is known.
pub open spec fn with_unit(t: TopologyView, unit: UnitView) -> Result<TopologyView, Error> {
    if is_known(t.units, unit) {
        Ok(t)
    } else if t.units.len() >= MAX_IOMMU_UNITS {
        Err(Error::TooManyUnits)
    } else if unit.register_base == 0 || unit.register_base % 0x1000 != 0 {
        Err(Error::InvalidTable)
    } else {
        Ok(TopologyView { units: t.units.push(unit), ..t })
    }
}

/// Adds a reserved range.
pub open spec fn with_reserved(
    t: TopologyView,
    mapping: ReservedMapping,
) -> Result<TopologyView, Error> {
    if t.reserved.len() >= MAX_RESERVED_MAPPINGS {
        Err(Error::TooManyReservedMappings)
    } else {
        Ok(TopologyView { reserved: t.reserved.push(mapping), ..t })
    }
}

impl IommuUnit {
    /// Whether firmware names the function for this unit.
    pub fn covers_requester(&self, requester: u16) -> (r: bool)
        ensures
            r == self@.scopes.contains(requester),
    {
        let mut i: usize = 0;
        while i < self.scope_requesters.len()
            invariant
                i <= self.scope_requesters@.len(),
                forall|j: int| 0 <= j < i ==> #[trigger] self.scope_requesters@[j] != requester,
            decreases self.scope_requesters@.len() - i,
        {
            if self.scope_requesters[i] == requester {
                return true;
            }
            i += 1;
        }
        false
    }
}

impl IommuTopology {
    /// The number of units and ranges that are kept is bounded, and every unit
    /// has a register page.
    pub open spec fn wf(&self) -> bool {
        &&& self@.units.len() <= MAX_IOMMU_UNITS
        &&& self@.reserved.len() <= MAX_RESERVED_MAPPINGS
        &&& forall|i: int|
            0 <= i < self@.units.len() ==> (#[trigger] self@.units[i]).register_base != 0
                && self@.units[i].register_base % 0x1000 == 0
    }

    pub fn new(kind: IommuKind) -> (r: Self)
        ensures
            r.wf(),
            r@ == empty_topology(kind),
    {
        let t = IommuTopology { kind, units: Vec::new(), reserved_mappings: Vec::new() };
        assert(t@ =~= empty_topology(kind));
        t
    }

    pub fn kind(&self) -> (r: IommuKind)
        ensures
            r == self@.kind,
    {
        self.kind
    }

    pub fn unit_count(&self) -> (r: usize)
        ensures
            r == self@.units.len(),
    {
        self.units.len()
    }

    pub fn units(&self) -> (r: &[IommuUnit])
        ensures
            r@.map_values(|u: IommuUnit| u@) == self@.units,
    {
        &self.units
    }

    pub fn reserved_mappings(&self) -> (r: &[ReservedMapping])
        ensures
            r@ == self@.reserved,
    {
        &self.reserved_mappings
    }

    /// Returns whether one remapping unit is authoritative for a requester.
    /// Explicit VT-d scopes take precedence over an include-all unit.
    pub fn unit_handles_requester(&self, index: usize, segment: u16, requester: u16) -> (r: bool)
        requires
            index < self@.units.len(),
        ensures
            r == handles(self@, index as int, segment, requester),
    {
        let unit = &self.units[index];
        assert(self@.units[index as int] == unit@);
        if unit.segment != segment {
            return false;
        }
        if self.kind == IommuKind::AmdVi {
            return true;
        }
        let mut explicit = false;
        let mut i: usize = 0;
        while i < self.units.len()
            invariant
                i <= self.units@.len() == self@.units.len(),
                self@.units == self.units@.map_values(|u: IommuUnit| u@),
                explicit == exists|j: int|
                    0 <= j < i && (#[trigger] self@.units[j]).segment == segment
                        && self@.units[j].scopes.contains(requester),
            decreases self.units@.len() - i,
        {
            assert(self@.units[i as int] == self.units@[i as int]@);
            if self.units[i].segment == segment && self.units[i].covers_requester(requester) {
                explicit = true;
            }
            i += 1;
        }
        if explicit {
            unit.covers_requester(requester)
        } else {
            unit.include_all
        }
    }

    /// Whether some unit remaps the function's DMA.
    pub fn covers_requester(&self, segment: u16, requester: u16) -> (r: bool)
        ensures
            r == is_covered(self@, segment, requester),
    {
        let mut index: usize = 0;
        while index < self.units.len()
            invariant
                index <= self.units@.len() == self@.units.len(),
                forall|j: int| 0 <= j < index ==> !#[trigger] handles(self@, j, segment, requester),
            decreases self.units@.len() - index,
        {
            if self.unit_handles_requester(index, segment, requester) {
                return true;
            }
            index += 1;
        }
        false
    }

    /// Adds a unit, unless it is known.
    pub fn push(&mut self, unit: IommuUnit) -> (r: Result<(), Error>)
        requires
            old(self).wf(),
        ensures
            final(self).wf(),
            match with_unit(old(self)@, unit@) {
                Ok(t) => r is Ok && final(self)@ == t,
                Err(e) => r == Err::<(), Error>(e) && final(self)@ == old(self)@,
            },
    {
        let mut i: usize = 0;
        while i < self.units.len()
            invariant
                *self == *old(self),
                self.wf(),
                i <= self.units@.len() == self@.units.len(),
                self@.units == self.units@.map_values(|u: IommuUnit| u@),
                forall|j: int|
                    0 <= j < i ==> !((#[trigger] self@.units[j]).segment == unit.segment
                        && self@.units[j].register_base == unit.register_base),
            decreases self.units@.len() - i,
        {
            assert(self@.units[i as int] == self.units@[i as int]@);
            if self.units[i].segment == unit.segment && self.units[i].register_base
                == unit.register_base {
                return Ok(());
            }
            i += 1;
        }
        if self.units.len() >= MAX_IOMMU_UNITS {
            return Err(Error::TooManyUnits);
        }
        if unit.register_base == 0 || unit.register_base % 0x1000 != 0 {
            return Err(Error::InvalidTable);
        }
        let ghost view = unit@;
        self.units.push(unit);
        assert(self@.units =~= old(self)@.units.push(view));
        Ok(())
    }

    /// Adds a reserved range.
    pub fn push_reserved_mapping(&mut self, mapping: ReservedMapping) -> (r: Result<(), Error>)
        requires
            old(self).wf(),
        ensures
            final(self).wf(),
            match with_reserved(old(self)@, mapping) {
                Ok(t) => r is Ok && final(self)@ == t,
                Err(e) => r == Err::<(), Error>(e) && final(self)@ == old(self)@,
            },
    {
        if self.reserved_mappings.len() >= MAX_RESERVED_MAPPINGS {
            return Err(Error::TooManyReservedMappings);
        }
        self.reserved_mappings.push(mapping);
        assert(self@.units =~= old(self)@.units);
        Ok(())
    }
}

/// A function that some unit names itself is never left to a unit that covers
/// the rest of its segment.
pub proof fn law_explicit_scope_precedes_include_all(
    t: TopologyView,
    index: int,
    segment: u16,
    requester: u16,
)
    requires
        t.kind == IommuKind::IntelVtd,
        0 <= index < t.units.len(),
        has_explicit_scope(t, segment, requester),
        handles(t, index, segment, requester),
    ensures
        t.units[index].scopes.contains(requester),
{
}

/// The pages that one unit's tables and queues take.
#[derive(Clone, Copy, Debug, PartialEq, Eq, Structural)]
pub struct IommuResources {
    pub remapping_table: u64,
    pub domain_tables: u64,
    pub command_buffer: u64,
    pub completion: u64,
}

impl IommuResources {
    /// How many pages each resource takes.
    pub fn required_pages(kind: IommuKind) -> (r: (usize, usize, usize, usize))
        ensures
            r == (match kind {
                IommuKind::IntelVtd => (INTEL_TABLE_PAGES, 0usize, 0usize, 0usize),
                IommuKind::AmdVi => (
                    AMD_DEVICE_TABLE_PAGES,
                    DOMAIN_TABLE_PAGES,
                    AMD_COMMAND_BUFFER_PAGES,
                    1usize,
                ),
            }),
    {
        match kind {
            IommuKind::IntelVtd => (INTEL_TABLE_PAGES, 0, 0, 0),
            IommuKind::AmdVi => (
                AMD_DEVICE_TABLE_PAGES,
                DOMAIN_TABLE_PAGES,
                AMD_COMMAND_BUFFER_PAGES,
                1,
            ),
        }
    }

    /// Each page that the kind needs is there, and no other.
    pub open spec fn is_valid(self, kind: IommuKind) -> bool {
        &&& is_table_page(self.remapping_table)
        &&& match kind {
            IommuKind::IntelVtd => self.domain_tables == 0 && self.command_buffer == 0
                && self.completion == 0,
            IommuKind::AmdVi => is_table_page(self.domain_tables) && is_table_page(
                self.command_buffer,
            ) && is_table_page(self.completion),
        }
    }
}

pub open spec fn is_table_page(address: u64) -> bool {
    address != 0 && address % 0x1000 == 0
}

fn table_page_valid(address: u64) -> (r: bool)
    ensures
        r == is_table_page(address),
{
    address != 0 && address % 0x1000 == 0
}

/// Checks that each page the kind needs is there, and no other.
pub fn validate_resources(kind: IommuKind, resources: &IommuResources) -> (r: Result<(), Error>)
    ensures
        r == (if resources.is_valid(kind) {
            Ok(())
        } else {
            Err(Error::InvalidResources)
        }),
{
    if !table_page_valid(resources.remapping_table) {
        return Err(Error::InvalidResources);
    }
    let rest = match kind {
        IommuKind::IntelVtd => resources.domain_tables == 0 && resources.command_buffer == 0
            && resources.completion == 0,
        IommuKind::AmdVi => table_page_valid(resources.domain_tables) && table_page_valid(
            resources.command_buffer,
        ) && table_page_valid(resources.completion),
    };
    if rest {
        Ok(())
    } else {
        Err(Error::InvalidResources)
    }
}

/// How many pages a table takes that denies every function.
pub fn deny_all_table_pages(kind: IommuKind) -> (r: usize)
    ensures
        r == (match kind {
            IommuKind::IntelVtd => INTEL_TABLE_PAGES,
            IommuKind::AmdVi => AMD_DEVICE_TABLE_PAGES,
        }),
{
    match kind {
        IommuKind::IntelVtd => INTEL_TABLE_PAGES,
        IommuKind::AmdVi => AMD_DEVICE_TABLE_PAGES,
    }
}

/// Who remaps a function: on AMD every unit of its segment. On Intel the units of its
/// segment that name it; where none does, those that cover the rest of the segment. No
/// unit of another segment ever does.
pub proof fn law_units_divide_their_segment(
    t: TopologyView,
    index: int,
    segment: u16,
    requester: u16,
)
    requires
        0 <= index < t.units.len(),
    ensures
        t.units[index].segment != segment ==> !handles(t, index, segment, requester),
        t.kind == IommuKind::AmdVi && t.units[index].segment == segment ==> handles(
            t,
            index,
            segment,
            requester,
        ),
        t.kind == IommuKind::IntelVtd && t.units[index].segment == segment
            && t.units[index].scopes.contains(requester) ==> handles(t, index, segment, requester),
        t.kind == IommuKind::IntelVtd && (forall|i: int|
            0 <= i < t.units.len() && (#[trigger] t.units[i]).segment == segment
                ==> !t.units[i].scopes.contains(requester)) ==> (handles(
            t,
            index,
            segment,
            requester,
        ) <==> t.units[index].segment == segment && t.units[index].include_all),
{
}

/// A unit is kept unless its registers are known already: with a register page, and up to
/// sixteen units, behind those that were there.
pub proof fn law_new_unit_is_kept(t: TopologyView, unit: UnitView)
    ensures
        (exists|i: int|
            0 <= i < t.units.len() && (#[trigger] t.units[i]).segment == unit.segment
                && t.units[i].register_base == unit.register_base) ==> with_unit(t, unit) == Ok::<
            TopologyView,
            Error,
        >(t),
        (forall|i: int|
            0 <= i < t.units.len() ==> !((#[trigger] t.units[i]).segment == unit.segment
                && t.units[i].register_base == unit.register_base)) ==> with_unit(t, unit) == (if
            t.units.len() >= 16 {
            Err(Error::TooManyUnits)
        } else if unit.register_base == 0 || unit.register_base % 0x1000 != 0 {
            Err(Error::InvalidTable)
        } else {
            Ok(TopologyView { units: t.units.push(unit), ..t })
        }),
{
    if exists|i: int|
        0 <= i < t.units.len() && (#[trigger] t.units[i]).segment == unit.segment
            && t.units[i].register_base == unit.register_base {
        let i = choose|i: int|
            0 <= i < t.units.len() && (#[trigger] t.units[i]).segment == unit.segment
                && t.units[i].register_base == unit.register_base;
        assert(is_same_unit(t.units[i], unit));
    }
}

/// The pages of an Intel unit are its tables alone; those of an AMD unit its device table,
/// its domains' tables, its command buffer and its completion page, none of them the page
/// at zero.
pub proof fn law_units_need_their_pages(resources: IommuResources)
    ensures
        resources.is_valid(IommuKind::IntelVtd) <==> resources.remapping_table != 0
            && resources.remapping_table % 0x1000 == 0 && resources.domain_tables == 0
            && resources.command_buffer == 0 && resources.completion == 0,
        resources.is_valid(IommuKind::AmdVi) <==> resources.remapping_table != 0
            && resources.remapping_table % 0x1000 == 0 && resources.domain_tables != 0
            && resources.domain_tables % 0x1000 == 0 && resources.command_buffer != 0
            && resources.command_buffer % 0x1000 == 0 && resources.completion != 0
            && resources.completion % 0x1000 == 0,
{
}

} // verus!
