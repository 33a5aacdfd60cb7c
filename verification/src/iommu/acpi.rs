//! The ACPI tables that describe remapping units.

use vstd::prelude::*;
use vstd::slice::slice_subrange;

use crate::bytes::{read_u16, read_u32, read_u64, same_bytes, u16_at, u32_at, u64_at};
use crate::pci::{law_requester_parts_are_inverse, requester_id, requester_of};
use super::{
    empty_topology, is_known, is_same_unit, with_reserved, with_unit, Error, IommuKind,
    IommuTopology, IommuUnit, ReservedMapping, TopologyView, UnitView, MAX_IOMMU_UNITS,
    MAX_UNIT_SCOPES,
};

verus! {

pub const ACPI_HEADER_SIZE: usize = 36;

pub const IOMMU_TABLE_HEADER_SIZE: usize = 48;

pub const MAX_ACPI_TABLE_SIZE: usize = 0x10_0000;

pub const DMAR_SIGNATURE: [u8; 4] = [0x44, 0x4d, 0x41, 0x52];

pub const IVRS_SIGNATURE: [u8; 4] = [0x49, 0x56, 0x52, 0x53];

pub const XSDT_SIGNATURE: [u8; 4] = [0x58, 0x53, 0x44, 0x54];

pub const RSDT_SIGNATURE: [u8; 4] = [0x52, 0x53, 0x44, 0x54];

/// `RSD PTR` and a space.
pub const RSDP_SIGNATURE: [u8; 8] = [0x52, 0x53, 0x44, 0x20, 0x50, 0x54, 0x52, 0x20];

/// The sum of the first `n` bytes.
pub open spec fn byte_sum(s: Seq<u8>, n: int) -> int
    decreases n,
{
    if n <= 0 {
        0
    } else {
        byte_sum(s, n - 1) + s[n - 1]
    }
}

/// The bytes add up to zero, modulo 256.
pub open spec fn has_zero_checksum(s: Seq<u8>) -> bool {
    byte_sum(s, s.len() as int) % 0x100 == 0
}

pub fn checksum_is_zero(bytes: &[u8]) -> (r: bool)
    ensures
        r == has_zero_checksum(bytes@),
{
    let mut sum: u8 = 0;
    let mut i: usize = 0;
    while i < bytes.len()
        invariant
            i <= bytes@.len(),
            sum == byte_sum(bytes@, i as int) % 0x100,
        decreases bytes@.len() - i,
    {
        sum = sum.wrapping_add(bytes[i]);
        i += 1;
    }
    sum == 0
}

/// A table with this signature whose length field and checksum are right.
pub open spec fn is_acpi_table(table: Seq<u8>, signature: Seq<u8>, minimum: int) -> bool {
    &&& table.len() >= minimum
    &&& table.subrange(0, 4) == signature
    &&& u32_at(table, 4) == table.len()
    &&& has_zero_checksum(table)
}

pub fn validate_acpi_table(
    table: &[u8],
    signature: &[u8; 4],
    minimum_size: usize,
) -> (r: Result<(), Error>)
    requires
        minimum_size >= 8,
    ensures
        r == (if is_acpi_table(table@, signature@, minimum_size as int) {
            Ok(())
        } else {
            Err(Error::InvalidTable)
        }),
{
    if table.len() < minimum_size || !same_bytes(slice_subrange(table, 0, 4), signature) || read_u32(
        table,
        4,
    ).unwrap() as usize != table.len() || !checksum_is_zero(table) {
        return Err(Error::InvalidTable);
    }
    Ok(())
}

/// The length of the device scope at the start of the bytes, if it is sound.
pub open spec fn scope_length(s: Seq<u8>) -> Option<int> {
    if s.len() < 6 || s[1] < 8 || s[1] > s.len() || s[1] % 2 != 0 {
        None
    } else {
        Some(s[1] as int)
    }
}

/// The function that a direct scope names; the path must be possible.
pub open spec fn scope_requester(s: Seq<u8>) -> Option<u16> {
    if s[6] >= 32 || s[7] >= 8 {
        None
    } else {
        Some(requester_of(s[5], s[6], s[7]))
    }
}

/// The functions that a unit's scopes name directly, behind those known already.
/// Scopes with more than one hop name none.
pub open spec fn direct_scopes(s: Seq<u8>, known: Seq<u16>) -> Result<Seq<u16>, Error>
    decreases s.len(),
{
    if s.len() == 0 {
        Ok(known)
    } else {
        match scope_length(s) {
            None => Err(Error::InvalidTable),
            Some(length) => {
                let rest = s.subrange(length, s.len() as int);
                if (s[0] == 1 || s[0] == 2) && length == 8 {
                    match scope_requester(s) {
                        None => Err(Error::InvalidTable),
                        Some(requester) => if known.len() >= MAX_UNIT_SCOPES {
                            Err(Error::TooManyUnits)
                        } else {
                            direct_scopes(rest, known.push(requester))
                        },
                    }
                } else {
                    direct_scopes(rest, known)
                }
            },
        }
    }
}

/// Reads the functions that a unit's scopes name directly.
fn parse_direct_scopes(scopes: &[u8]) -> (r: Result<Vec<u16>, Error>)
    ensures
        match r {
            Ok(requesters) => direct_scopes(scopes@, Seq::empty()) == Ok::<Seq<u16>, Error>(
                requesters@,
            ),
            Err(e) => direct_scopes(scopes@, Seq::empty()) == Err::<Seq<u16>, Error>(e),
        },
{
    let mut requesters: Vec<u16> = Vec::new();
    let mut at: usize = 0;
    assert(scopes@.subrange(0, scopes@.len() as int) =~= scopes@);
    while at < scopes.len()
        invariant
            at <= scopes@.len(),
            direct_scopes(scopes@, Seq::empty()) == direct_scopes(
                scopes@.subrange(at as int, scopes@.len() as int),
                requesters@,
            ),
        decreases scopes@.len() - at,
    {
        let ghost s = scopes@.subrange(at as int, scopes@.len() as int);
        let left: usize = scopes.len() - at;
        if left < 6 {
            return Err(Error::InvalidTable);
        }
        let length: usize = scopes[at + 1] as usize;
        if length < 8 || length > left || length % 2 != 0 {
            return Err(Error::InvalidTable);
        }
        assert(s.subrange(length as int, s.len() as int) =~= scopes@.subrange(
            at + length,
            scopes@.len() as int,
        ));
        if (scopes[at] == 1 || scopes[at] == 2) && length == 8 {
            if scopes[at + 6] >= 32 || scopes[at + 7] >= 8 {
                return Err(Error::InvalidTable);
            }
            if requesters.len() >= MAX_UNIT_SCOPES {
                return Err(Error::TooManyUnits);
            }
            requesters.push(requester_id(scopes[at + 5], scopes[at + 6], scopes[at + 7]));
        }
        at += length;
    }
    Ok(requesters)
}

/// The reserved ranges of a memory-region structure's scopes. Only endpoints on
/// a root bus are named directly; longer paths remain denied.
pub open spec fn reserved_scopes(
    s: Seq<u8>,
    segment: u16,
    base: u64,
    limit: u64,
    t: TopologyView,
) -> Result<TopologyView, Error>
    decreases s.len(),
{
    if s.len() == 0 {
        Ok(t)
    } else {
        match scope_length(s) {
            None => Err(Error::InvalidTable),
            Some(length) => {
                let rest = s.subrange(length, s.len() as int);
                if s[0] == 1 && length == 8 {
                    match scope_requester(s) {
                        None => Err(Error::InvalidTable),
                        Some(requester) => match with_reserved(
                            t,
                            ReservedMapping { segment, requester, base, limit },
                        ) {
                            Ok(next) => reserved_scopes(rest, segment, base, limit, next),
                            Err(e) => Err(e),
                        },
                    }
                } else {
                    reserved_scopes(rest, segment, base, limit, t)
                }
            },
        }
    }
}

/// A reserved memory region adds a range for each function that it names.
pub open spec fn with_region(s: Seq<u8>, t: TopologyView) -> Result<TopologyView, Error> {
    let base = u64_at(s, 8);
    let limit = u64_at(s, 16);
    if s.len() < 24 || base % 0x1000 != 0 || limit % 0x1000 != 0xfff || limit < base {
        Err(Error::InvalidTable)
    } else {
        reserved_scopes(s.subrange(24, s.len() as int), u16_at(s, 6), base, limit, t)
    }
}

/// Reads a reserved memory region.
fn parse_rmrr(structure: &[u8], topology: &mut IommuTopology) -> (r: Result<(), Error>)
    requires
        old(topology).wf(),
    ensures
        final(topology).wf(),
        match r {
            Ok(_) => with_region(structure@, old(topology)@) == Ok::<TopologyView, Error>(
                final(topology)@,
            ),
            Err(e) => with_region(structure@, old(topology)@) == Err::<TopologyView, Error>(e),
        },
{
    if structure.len() < 24 {
        return Err(Error::InvalidTable);
    }
    let segment: u16 = read_u16(structure, 6).unwrap();
    let base: u64 = read_u64(structure, 8).unwrap();
    let limit: u64 = read_u64(structure, 16).unwrap();
    if base % 0x1000 != 0 || limit % 0x1000 != 0xfff || limit < base {
        return Err(Error::InvalidTable);
    }
    let mut at: usize = 24;
    while at < structure.len()
        invariant
            24 <= at <= structure@.len(),
            topology.wf(),
            segment == u16_at(structure@, 6),
            base == u64_at(structure@, 8),
            limit == u64_at(structure@, 16),
            base % 0x1000 == 0,
            limit % 0x1000 == 0xfff,
            base <= limit,
            with_region(structure@, old(topology)@) == reserved_scopes(
                structure@.subrange(at as int, structure@.len() as int),
                segment,
                base,
                limit,
                topology@,
            ),
        decreases structure@.len() - at,
    {
        let ghost s = structure@.subrange(at as int, structure@.len() as int);
        let left: usize = structure.len() - at;
        if left < 6 {
            return Err(Error::InvalidTable);
        }
        let length: usize = structure[at + 1] as usize;
        if length < 8 || length > left || length % 2 != 0 {
            return Err(Error::InvalidTable);
        }
        assert(s.subrange(length as int, s.len() as int) =~= structure@.subrange(
            at + length,
            structure@.len() as int,
        ));
        if structure[at] == 1 && length == 8 {
            if structure[at + 6] >= 32 || structure[at + 7] >= 8 {
                return Err(Error::InvalidTable);
            }
            let requester: u16 = requester_id(
                structure[at + 5],
                structure[at + 6],
                structure[at + 7],
            );
            topology.push_reserved_mapping(ReservedMapping { segment, requester, base, limit })?;
        }
        at += length;
    }
    Ok(())
}

/// The unit that a VT-d structure describes, with these scopes.
pub open spec fn dmar_unit(s: Seq<u8>, scopes: Seq<u16>) -> UnitView {
    UnitView {
        segment: u16_at(s, 6),
        register_base: u64_at(s, 8),
        include_all: s[4] & 1 != 0,
        scopes,
    }
}

/// The unit that an AMD-Vi structure describes.
pub open spec fn ivrs_unit(s: Seq<u8>) -> UnitView {
    UnitView {
        segment: u16_at(s, 16),
        register_base: u64_at(s, 8),
        include_all: true,
        scopes: Seq::empty(),
    }
}

/// What a VT-d remapping structure adds.
pub open spec fn with_dmar_structure(
    kind: u16,
    s: Seq<u8>,
    t: TopologyView,
) -> Result<TopologyView, Error> {
    if kind == 0 {
        if s.len() < 16 {
            Err(Error::InvalidTable)
        } else {
            match direct_scopes(s.subrange(16, s.len() as int), Seq::empty()) {
                Err(e) => Err(e),
                Ok(scopes) => with_unit(t, dmar_unit(s, scopes)),
            }
        }
    } else if kind == 1 {
        with_region(s, t)
    } else {
        Ok(t)
    }
}

/// The kinds of AMD-Vi structures that describe a unit.
pub open spec fn is_ivrs_unit(kind: u16) -> bool {
    let low = kind % 0x100;
    low == 0x10 || low == 0x11 || low == 0x40
}

/// What an AMD-Vi structure adds.
pub open spec fn with_ivrs_structure(
    kind: u16,
    s: Seq<u8>,
    t: TopologyView,
) -> Result<TopologyView, Error> {
    if !is_ivrs_unit(kind) {
        Ok(t)
    } else if s.len() < 24 {
        Err(Error::InvalidTable)
    } else {
        with_unit(t, ivrs_unit(s))
    }
}

/// All structures from the start of the bytes on, added in order.
pub open spec fn with_structures(
    intel: bool,
    s: Seq<u8>,
    t: TopologyView,
) -> Result<TopologyView, Error>
    decreases s.len(),
{
    let length = u16_at(s, 2) as int;
    if s.len() == 0 {
        Ok(t)
    } else if s.len() < 4 || length < 4 || length > s.len() {
        Err(Error::InvalidTable)
    } else {
        let structure = s.subrange(0, length);
        let next = if intel {
            with_dmar_structure(u16_at(s, 0), structure, t)
        } else {
            with_ivrs_structure(u16_at(s, 0), structure, t)
        };
        match next {
            Err(e) => Err(e),
            Ok(u) => with_structures(intel, s.subrange(length, s.len() as int), u),
        }
    }
}

/// The topology that a table describes; it must hold at least one unit.
pub open spec fn topology_of(intel: bool, table: Seq<u8>) -> Result<TopologyView, Error> {
    let signature = if intel {
        DMAR_SIGNATURE@
    } else {
        IVRS_SIGNATURE@
    };
    let kind = if intel {
        IommuKind::IntelVtd
    } else {
        IommuKind::AmdVi
    };
    if !is_acpi_table(table, signature, IOMMU_TABLE_HEADER_SIZE as int) {
        Err(Error::InvalidTable)
    } else {
        match with_structures(intel, table.subrange(48, table.len() as int), empty_topology(kind)) {
            Err(e) => Err(e),
            Ok(t) => if t.units.len() == 0 {
                Err(Error::InvalidTable)
            } else {
                Ok(t)
            },
        }
    }
}

/// Adds one VT-d remapping structure.
fn add_dmar_structure(
    kind: u16,
    structure: &[u8],
    topology: &mut IommuTopology,
) -> (r: Result<(), Error>)
    requires
        old(topology).wf(),
    ensures
        final(topology).wf(),
        match r {
            Ok(_) => with_dmar_structure(kind, structure@, old(topology)@) == Ok::<
                TopologyView,
                Error,
            >(final(topology)@),
            Err(e) => with_dmar_structure(kind, structure@, old(topology)@) == Err::<
                TopologyView,
                Error,
            >(e),
        },
{
    match kind {
        0 => {
            if structure.len() < 16 {
                return Err(Error::InvalidTable);
            }
            let scope_requesters = parse_direct_scopes(
                slice_subrange(structure, 16, structure.len()),
            )?;
            let unit = IommuUnit {
                segment: read_u16(structure, 6).unwrap(),
                register_base: read_u64(structure, 8).unwrap(),
                include_all: structure[4] & 1 != 0,
                scope_requesters,
            };
            topology.push(unit)
        },
        1 => parse_rmrr(structure, topology),
        _ => Ok(()),
    }
}

/// Adds one AMD-Vi structure.
fn add_ivrs_structure(
    kind: u16,
    structure: &[u8],
    topology: &mut IommuTopology,
) -> (r: Result<(), Error>)
    requires
        old(topology).wf(),
    ensures
        final(topology).wf(),
        match r {
            Ok(_) => with_ivrs_structure(kind, structure@, old(topology)@) == Ok::<
                TopologyView,
                Error,
            >(final(topology)@),
            Err(e) => with_ivrs_structure(kind, structure@, old(topology)@) == Err::<
                TopologyView,
                Error,
            >(e),
        },
{
    let low: u16 = kind % 0x100;
    if low != 0x10 && low != 0x11 && low != 0x40 {
        return Ok(());
    }
    if structure.len() < 24 {
        return Err(Error::InvalidTable);
    }
    let unit = IommuUnit {
        segment: read_u16(structure, 16).unwrap(),
        register_base: read_u64(structure, 8).unwrap(),
        include_all: true,
        scope_requesters: Vec::new(),
    };
    topology.push(unit)
}

/// Reads every structure of a table.
fn walk_structures(
    intel: bool,
    bytes: &[u8],
    topology: &mut IommuTopology,
) -> (r: Result<(), Error>)
    requires
        old(topology).wf(),
    ensures
        final(topology).wf(),
        match r {
            Ok(_) => with_structures(intel, bytes@, old(topology)@) == Ok::<TopologyView, Error>(
                final(topology)@,
            ),
            Err(e) => with_structures(intel, bytes@, old(topology)@) == Err::<TopologyView, Error>(
                e,
            ),
        },
{
    let mut at: usize = 0;
    assert(bytes@.subrange(0, bytes@.len() as int) =~= bytes@);
    while at < bytes.len()
        invariant
            at <= bytes@.len(),
            topology.wf(),
            with_structures(intel, bytes@, old(topology)@) == with_structures(
                intel,
                bytes@.subrange(at as int, bytes@.len() as int),
                topology@,
            ),
        decreases bytes@.len() - at,
    {
        let ghost s = bytes@.subrange(at as int, bytes@.len() as int);
        let left: usize = bytes.len() - at;
        if left < 4 {
            return Err(Error::InvalidTable);
        }
        let kind: u16 = read_u16(bytes, at).unwrap();
        let length: usize = read_u16(bytes, at + 2).unwrap() as usize;
        assert(u16_at(s, 0) == kind && u16_at(s, 2) == length);
        if length < 4 || length > left {
            return Err(Error::InvalidTable);
        }
        let structure = slice_subrange(bytes, at, at + length);
        assert(structure@ =~= s.subrange(0, length as int));
        assert(s.subrange(length as int, s.len() as int) =~= bytes@.subrange(
            at + length,
            bytes@.len() as int,
        ));
        if intel {
            add_dmar_structure(kind, structure, topology)?;
        } else {
            add_ivrs_structure(kind, structure, topology)?;
        }
        at += length;
    }
    Ok(())
}

/// Reads a VT-d table.
pub fn parse_dmar(table: &[u8]) -> (r: Result<IommuTopology, Error>)
    ensures
        match topology_of(true, table@) {
            Ok(t) => r matches Ok(topology) && topology@ == t && topology.wf(),
            Err(e) => r matches Err(f) && f == e,
        },
{
    let signature = DMAR_SIGNATURE;
    validate_acpi_table(table, &signature, IOMMU_TABLE_HEADER_SIZE)?;
    let mut topology = IommuTopology::new(IommuKind::IntelVtd);
    walk_structures(
        true,
        slice_subrange(table, IOMMU_TABLE_HEADER_SIZE, table.len()),
        &mut topology,
    )?;
    if topology.unit_count() == 0 {
        return Err(Error::InvalidTable);
    }
    Ok(topology)
}

/// Reads an AMD-Vi table.
pub fn parse_ivrs(table: &[u8]) -> (r: Result<IommuTopology, Error>)
    ensures
        match topology_of(false, table@) {
            Ok(t) => r matches Ok(topology) && topology@ == t && topology.wf(),
            Err(e) => r matches Err(f) && f == e,
        },
{
    let signature = IVRS_SIGNATURE;
    validate_acpi_table(table, &signature, IOMMU_TABLE_HEADER_SIZE)?;
    let mut topology = IommuTopology::new(IommuKind::AmdVi);
    walk_structures(
        false,
        slice_subrange(table, IOMMU_TABLE_HEADER_SIZE, table.len()),
        &mut topology,
    )?;
    if topology.unit_count() == 0 {
        return Err(Error::InvalidTable);
    }
    Ok(topology)
}

/// The unit that a structure describes, if it describes one.
pub open spec fn described_unit(intel: bool, kind: u16, s: Seq<u8>) -> Option<UnitView> {
    if intel {
        match direct_scopes(s.subrange(16, s.len() as int), Seq::empty()) {
            Ok(scopes) if kind == 0 => Some(dmar_unit(s, scopes)),
            _ => None,
        }
    } else if is_ivrs_unit(kind) {
        Some(ivrs_unit(s))
    } else {
        None
    }
}

/// The units that the structures describe, in their order and as often as they do.
pub open spec fn described_units(intel: bool, s: Seq<u8>) -> Seq<UnitView>
    decreases s.len(),
{
    let length = u16_at(s, 2) as int;
    if s.len() < 4 || length < 4 || length > s.len() {
        Seq::empty()
    } else {
        let rest = described_units(intel, s.subrange(length, s.len() as int));
        match described_unit(intel, u16_at(s, 0), s.subrange(0, length)) {
            Some(unit) => seq![unit] + rest,
            None => rest,
        }
    }
}

/// The units are the first descriptions of each unit among `all`, found at `places`.
pub open spec fn are_first(units: Seq<UnitView>, all: Seq<UnitView>, places: Seq<int>) -> bool {
    &&& places.len() == units.len()
    &&& forall|i: int, j: int|
        0 <= i < j < places.len() ==> #[trigger] places[i] < #[trigger] places[j]
    &&& forall|i: int| 0 <= i < places.len() ==> 0 <= #[trigger] places[i] < all.len()
    &&& forall|i: int| 0 <= i < units.len() ==> #[trigger] units[i] == all[places[i]]
    &&& forall|i: int, q: int|
        0 <= i < units.len() && 0 <= q < places[i] ==> !is_same_unit(
            #[trigger] all[q],
            #[trigger] units[i],
        )
    &&& forall|q: int| 0 <= q < all.len() ==> is_known(units, #[trigger] all[q])
}

/// There are no more units than are kept, each with a register page of its own.
pub open spec fn are_distinct_units(units: Seq<UnitView>) -> bool {
    &&& units.len() <= MAX_IOMMU_UNITS
    &&& forall|i: int|
        0 <= i < units.len() ==> (#[trigger] units[i]).register_base != 0
            && units[i].register_base % 0x1000 == 0
    &&& forall|i: int, j: int|
        0 <= i < j < units.len() ==> !is_same_unit(#[trigger] units[i], #[trigger] units[j])
}

proof fn lemma_regions_keep_units(
    s: Seq<u8>,
    segment: u16,
    base: u64,
    limit: u64,
    t: TopologyView,
)
    ensures
        reserved_scopes(s, segment, base, limit, t) matches Ok(u) ==> u.units == t.units,
    decreases s.len(),
{
    if let Some(length) = scope_length(s) {
        let rest = s.subrange(length, s.len() as int);
        lemma_regions_keep_units(rest, segment, base, limit, t);
        if let Some(requester) = scope_requester(s) {
            let mapping = ReservedMapping { segment, requester, base, limit };
            if let Ok(next) = with_reserved(t, mapping) {
                lemma_regions_keep_units(rest, segment, base, limit, next);
            }
        }
    }
}

proof fn lemma_unit_joins(
    all: Seq<UnitView>,
    t: TopologyView,
    places: Seq<int>,
    unit: UnitView,
) -> (after: Seq<int>)
    requires
        are_distinct_units(t.units),
        are_first(t.units, all, places),
        with_unit(t, unit) is Ok,
    ensures
        are_distinct_units(with_unit(t, unit)->Ok_0.units),
        are_first(with_unit(t, unit)->Ok_0.units, all.push(unit), after),
{
    let next = all.push(unit);
    let units = with_unit(t, unit)->Ok_0.units;
    let after = if is_known(t.units, unit) {
        places
    } else {
        places.push(all.len() as int)
    };
    assert forall|q: int| 0 <= q < next.len() implies is_known(units, #[trigger] next[q]) by {
        if q < all.len() {
            assert(is_known(t.units, all[q]));
            let i = choose|i: int|
                0 <= i < t.units.len() && is_same_unit(#[trigger] t.units[i], all[q]);
            assert(is_same_unit(units[i], next[q]));
        } else if !is_known(t.units, unit) {
            assert(is_same_unit(units[t.units.len() as int], unit));
        }
    }
    assert forall|i: int| 0 <= i < units.len() implies #[trigger] units[i] == next[after[i]] by {
        if i < t.units.len() {
            assert(units[i] == t.units[i]);
        }
    }
    assert forall|i: int, q: int| 0 <= i < units.len() && 0 <= q < after[i] implies !is_same_unit(
        #[trigger] next[q],
        #[trigger] units[i],
    ) by {
        if i < t.units.len() {
            assert(units[i] == t.units[i]);
            assert(next[q] == all[q]);
        } else {
            assert(is_known(t.units, all[q]));
        }
    }
    after
}

proof fn lemma_structures_describe_units(
    intel: bool,
    s: Seq<u8>,
    all: Seq<UnitView>,
    t: TopologyView,
    places: Seq<int>,
) -> (after: Seq<int>)
    requires
        are_distinct_units(t.units),
        are_first(t.units, all, places),
        with_structures(intel, s, t) is Ok,
    ensures
        ({
            let units = with_structures(intel, s, t)->Ok_0.units;
            &&& are_distinct_units(units)
            &&& are_first(units, all + described_units(intel, s), after)
        }),
    decreases s.len(),
{
    if s.len() == 0 {
        assert(all + described_units(intel, s) =~= all);
        places
    } else {
        let length = u16_at(s, 2) as int;
        let kind = u16_at(s, 0);
        let structure = s.subrange(0, length);
        let rest = s.subrange(length, s.len() as int);
        let next = if intel {
            with_dmar_structure(kind, structure, t)
        } else {
            with_ivrs_structure(kind, structure, t)
        };
        match described_unit(intel, kind, structure) {
            Some(unit) => {
                let joined = lemma_unit_joins(all, t, places, unit);
                assert(all + described_units(intel, s) =~= all.push(unit) + described_units(
                    intel,
                    rest,
                ));
                lemma_structures_describe_units(intel, rest, all.push(unit), next->Ok_0, joined)
            },
            None => {
                lemma_regions_keep_units(
                    structure.subrange(24, structure.len() as int),
                    u16_at(structure, 6),
                    u64_at(structure, 8),
                    u64_at(structure, 16),
                    t,
                );
                lemma_structures_describe_units(intel, rest, all, next->Ok_0, places)
            },
        }
    }
}

/// A table that is accepted gives between one unit and as many as are kept. Each has a
/// register page, and no two have the same one in a segment. A unit that the table
/// describes more than once is kept as it was described first, and the units come in
/// the order of their first descriptions, the places of which are given back.
pub proof fn law_units_come_in_order(intel: bool, table: Seq<u8>) -> (places: Seq<int>)
    requires
        topology_of(intel, table) is Ok,
    ensures
        ({
            let units = topology_of(intel, table)->Ok_0.units;
            let all = described_units(intel, table.subrange(48, table.len() as int));
            &&& 1 <= units.len() <= MAX_IOMMU_UNITS
            &&& are_distinct_units(units)
            &&& are_first(units, all, places)
        }),
{
    let kind = if intel {
        IommuKind::IntelVtd
    } else {
        IommuKind::AmdVi
    };
    let s = table.subrange(48, table.len() as int);
    assert(Seq::<UnitView>::empty() + described_units(intel, s) =~= described_units(intel, s));
    lemma_structures_describe_units(intel, s, Seq::empty(), empty_topology(kind), Seq::empty())
}

/// A part of memory that can be looked at.
pub open spec fn is_readable(address: u64, length: int) -> bool {
    address != 0 && length > 0 && address + length <= u64::MAX
}

/// The root table that the root pointer names: an XSDT, or else an RSDT.
#[derive(Clone, Copy, Debug, PartialEq, Eq, Structural)]
pub struct RootTable {
    pub address: u64,
    pub extended: bool,
}

/// How far the search for a description of remapping units has come. In each
/// state a part of memory is to be looked at.
#[derive(Debug, PartialEq, Eq)]
pub enum Discovery {
    /// The first 20 bytes of the root pointer.
    Pointer { address: u64 },
    /// The first 36 bytes of the root pointer.
    LongPointer { address: u64 },
    /// All of the root pointer.
    WholePointer { address: u64, length: usize },
    /// The header of the root table.
    RootHeader { root: RootTable },
    /// All of the root table.
    Root { root: RootTable, length: usize },
    /// The headers of the tables from the first of these on.
    Headers { tables: Vec<u64>, at: usize },
    /// The header of a table that describes remapping units.
    TableHeader { address: u64 },
    /// All of that table.
    Table { address: u64, length: usize },
    /// The search is over.
    Finished(Option<IommuTopology>),
}

/// The state of a search, as a value.
#[verifier::ext_equal]
pub enum DiscoveryView {
    Pointer { address: u64 },
    LongPointer { address: u64 },
    WholePointer { address: u64, length: usize },
    RootHeader { root: RootTable },
    Root { root: RootTable, length: usize },
    Headers { tables: Seq<u64>, at: int },
    TableHeader { address: u64 },
    Table { address: u64, length: usize },
    Finished { topology: Option<TopologyView> },
}

impl View for Discovery {
    type V = DiscoveryView;

    open spec fn view(&self) -> DiscoveryView {
        match self {
            Discovery::Pointer { address } => DiscoveryView::Pointer { address: *address },
            Discovery::LongPointer { address } => DiscoveryView::LongPointer { address: *address },
            Discovery::WholePointer { address, length } => DiscoveryView::WholePointer {
                address: *address,
                length: *length,
            },
            Discovery::RootHeader { root } => DiscoveryView::RootHeader { root: *root },
            Discovery::Root { root, length } => DiscoveryView::Root {
                root: *root,
                length: *length,
            },
            Discovery::Headers { tables, at } => DiscoveryView::Headers {
                tables: tables@,
                at: *at as int,
            },
            Discovery::TableHeader { address } => DiscoveryView::TableHeader { address: *address },
            Discovery::Table { address, length } => DiscoveryView::Table {
                address: *address,
                length: *length,
            },
            Discovery::Finished(topology) => DiscoveryView::Finished {
                topology: match topology {
                    Some(t) => Some(t@),
                    None => None,
                },
            },
        }
    }
}

/// The part of memory that a state asks for.
pub open spec fn wanted(d: DiscoveryView) -> (u64, int) {
    match d {
        DiscoveryView::Pointer { address } => (address, 20),
        DiscoveryView::LongPointer { address } => (address, 36),
        DiscoveryView::WholePointer { address, length } => (address, length as int),
        DiscoveryView::RootHeader { root } => (root.address, 36),
        DiscoveryView::Root { root, length } => (root.address, length as int),
        DiscoveryView::Headers { tables, at } => (tables[at], 36),
        DiscoveryView::TableHeader { address } => (address, 36),
        DiscoveryView::Table { address, length } => (address, length as int),
        DiscoveryView::Finished { .. } => (0, 0),
    }
}

/// The root table that a root pointer names.
pub open spec fn named_root(pointer: Seq<u8>, long: bool) -> Result<DiscoveryView, Error> {
    let extended = long && u64_at(pointer, 24) != 0;
    let address = if extended {
        u64_at(pointer, 24)
    } else {
        u32_at(pointer, 16) as u64
    };
    if address == 0 {
        Err(Error::InvalidRsdp)
    } else {
        Ok(DiscoveryView::RootHeader { root: RootTable { address, extended } })
    }
}

/// The length of a table, from its header.
pub open spec fn table_length(header: Seq<u8>) -> Option<usize> {
    let length = u32_at(header, 4);
    if length < ACPI_HEADER_SIZE || length > MAX_ACPI_TABLE_SIZE {
        None
    } else {
        Some(length as usize)
    }
}

/// The addresses that a root table holds.
pub open spec fn root_entries(table: Seq<u8>, extended: bool) -> Seq<u64> {
    if extended {
        Seq::new(
            ((table.len() - 36) / 8) as nat,
            |i: int| u64_at(table, 36 + 8 * i),
        )
    } else {
        Seq::new(
            ((table.len() - 36) / 4) as nat,
            |i: int| u32_at(table, 36 + 4 * i) as u64,
        )
    }
}

/// The headers still to look at; with none left, there are no remapping units.
pub open spec fn headers_from(tables: Seq<u64>, at: int) -> DiscoveryView {
    if at < tables.len() {
        DiscoveryView::Headers { tables, at }
    } else {
        DiscoveryView::Finished { topology: None }
    }
}

/// What a search makes of the bytes that it asked for.
pub open spec fn discovered(d: DiscoveryView, bytes: Seq<u8>) -> Result<DiscoveryView, Error> {
    match d {
        DiscoveryView::Pointer { address } => if bytes.subrange(0, 8) != RSDP_SIGNATURE@
            || !has_zero_checksum(bytes) {
            Err(Error::InvalidRsdp)
        } else if bytes[15] >= 2 {
            Ok(DiscoveryView::LongPointer { address })
        } else {
            named_root(bytes, false)
        },
        DiscoveryView::LongPointer { address } => {
            let length = u32_at(bytes, 20);
            if length < 36 || length > MAX_ACPI_TABLE_SIZE {
                Err(Error::InvalidRsdp)
            } else {
                Ok(DiscoveryView::WholePointer { address, length: length as usize })
            }
        },
        DiscoveryView::WholePointer { .. } => if !has_zero_checksum(bytes) {
            Err(Error::InvalidRsdp)
        } else {
            named_root(bytes, true)
        },
        DiscoveryView::RootHeader { root } => match table_length(bytes) {
            None => Err(Error::InvalidTable),
            Some(length) => Ok(DiscoveryView::Root { root, length }),
        },
        DiscoveryView::Root { root, .. } => {
            let signature = if root.extended {
                XSDT_SIGNATURE@
            } else {
                RSDT_SIGNATURE@
            };
            let size: int = if root.extended {
                8
            } else {
                4
            };
            if !has_zero_checksum(bytes) || bytes.subrange(0, 4) != signature || (bytes.len() - 36)
                % size != 0 {
                Err(Error::InvalidTable)
            } else {
                Ok(headers_from(root_entries(bytes, root.extended), 0))
            }
        },
        DiscoveryView::Headers { tables, at } => if bytes.subrange(0, 4) == DMAR_SIGNATURE@
            || bytes.subrange(0, 4) == IVRS_SIGNATURE@ {
            Ok(DiscoveryView::TableHeader { address: tables[at] })
        } else {
            Ok(headers_from(tables, at + 1))
        },
        DiscoveryView::TableHeader { address } => match table_length(bytes) {
            None => Err(Error::InvalidTable),
            Some(length) => Ok(DiscoveryView::Table { address, length }),
        },
        DiscoveryView::Table { .. } => if !has_zero_checksum(bytes) {
            Err(Error::InvalidTable)
        } else {
            match topology_of(bytes.subrange(0, 4) == DMAR_SIGNATURE@, bytes) {
                Err(e) => Err(e),
                Ok(t) => Ok(DiscoveryView::Finished { topology: Some(t) }),
            }
        },
        DiscoveryView::Finished { .. } => Ok(d),
    }
}

fn root_from_pointer(pointer: &[u8], long: bool) -> (r: Result<Discovery, Error>)
    requires
        pointer@.len() >= 20,
        long ==> pointer@.len() >= 36,
    ensures
        match named_root(pointer@, long) {
            Ok(d) => r matches Ok(state) && state@ == d,
            Err(e) => r == Err::<Discovery, Error>(e),
        },
{
    let mut extended = false;
    let mut address: u64 = read_u32(pointer, 16).unwrap() as u64;
    if long {
        let wide: u64 = read_u64(pointer, 24).unwrap();
        if wide != 0 {
            address = wide;
            extended = true;
        }
    }
    if address == 0 {
        return Err(Error::InvalidRsdp);
    }
    Ok(Discovery::RootHeader { root: RootTable { address, extended } })
}

fn length_from_header(header: &[u8]) -> (r: Result<usize, Error>)
    requires
        header@.len() >= 8,
    ensures
        r == (match table_length(header@) {
            Some(length) => Ok::<usize, Error>(length),
            None => Err(Error::InvalidTable),
        }),
{
    let length: usize = read_u32(header, 4).unwrap() as usize;
    if length < ACPI_HEADER_SIZE || length > MAX_ACPI_TABLE_SIZE {
        return Err(Error::InvalidTable);
    }
    Ok(length)
}

/// Reads the addresses that a root table holds.
fn read_root_entries(table: &[u8], extended: bool) -> (r: Vec<u64>)
    requires
        table@.len() >= 36,
        extended ==> (table@.len() - 36) % 8 == 0,
        !extended ==> (table@.len() - 36) % 4 == 0,
    ensures
        r@ == root_entries(table@, extended),
{
    let mut entries: Vec<u64> = Vec::new();
    let mut at: usize = 36;
    let size: usize = if extended {
        8
    } else {
        4
    };
    while at < table.len()
        invariant
            36 <= at <= table.len(),
            size == (if extended {
                8usize
            } else {
                4usize
            }),
            (table@.len() - 36) % (size as int) == 0,
            (at - 36) % (size as int) == 0,
            entries@.len() == (at - 36) / (size as int),
            entries@.len() <= root_entries(table@, extended).len(),
            forall|i: int|
                0 <= i < entries@.len() ==> #[trigger] entries@[i] == root_entries(
                    table@,
                    extended,
                )[i],
        decreases table@.len() - at,
    {
        let address: u64 = if extended {
            read_u64(table, at).unwrap()
        } else {
            read_u32(table, at).unwrap() as u64
        };
        entries.push(address);
        at += size;
    }
    assert(entries@ =~= root_entries(table@, extended));
    entries
}

impl Discovery {
    /// Whether the state is one that a search can be in.
    pub open spec fn wf(&self) -> bool {
        match self {
            Discovery::Headers { tables, at } => *at < tables@.len(),
            Discovery::WholePointer { length, .. } => *length >= 36,
            Discovery::Root { length, .. } => *length >= 36,
            Discovery::Table { length, .. } => *length >= 36,
            Discovery::Finished(Some(t)) => t.wf(),
            _ => true,
        }
    }

    /// Begins a search at the root pointer.
    pub fn new(address: u64) -> (r: Self)
        ensures
            r.wf(),
            r@ == (DiscoveryView::Pointer { address }),
    {
        Discovery::Pointer { address }
    }

    /// The part of memory to look at next; nothing when the search is over. A
    /// part that wraps around or starts at zero is refused.
    pub fn request(&self) -> (r: Result<Option<(u64, usize)>, Error>)
        requires
            self.wf(),
        ensures
            ({
                let (address, length) = wanted(self@);
                r == (if self is Finished {
                    Ok(None)
                } else if is_readable(address, length) {
                    Ok(Some((address, length as usize)))
                } else {
                    Err(Error::InvalidTable)
                })
            }),
    {
        let (address, length): (u64, usize) = match self {
            Discovery::Pointer { address } => (*address, 20),
            Discovery::LongPointer { address } => (*address, 36),
            Discovery::WholePointer { address, length } => (*address, *length),
            Discovery::RootHeader { root } => (root.address, 36),
            Discovery::Root { root, length } => (root.address, *length),
            Discovery::Headers { tables, at } => (tables[*at], 36),
            Discovery::TableHeader { address } => (*address, 36),
            Discovery::Table { address, length } => (*address, *length),
            Discovery::Finished(_) => {
                return Ok(None);
            },
        };
        if address == 0 || length == 0 || address > u64::MAX - length as u64 {
            return Err(Error::InvalidTable);
        }
        Ok(Some((address, length)))
    }

    /// Continues with the bytes that were asked for.
    pub fn discover(self, bytes: &[u8]) -> (r: Result<Self, Error>)
        requires
            self.wf(),
            !(self is Finished),
            bytes@.len() == wanted(self@).1,
        ensures
            match discovered(self@, bytes@) {
                Ok(d) => r matches Ok(state) && state@ == d && state.wf(),
                Err(e) => r == Err::<Discovery, Error>(e),
            },
    {
        match self {
            Discovery::Pointer { address } => {
                let signature = RSDP_SIGNATURE;
                if !same_bytes(slice_subrange(bytes, 0, 8), &signature) || !checksum_is_zero(
                    bytes,
                ) {
                    return Err(Error::InvalidRsdp);
                }
                if bytes[15] >= 2 {
                    return Ok(Discovery::LongPointer { address });
                }
                root_from_pointer(bytes, false)
            },
            Discovery::LongPointer { address } => {
                let length: usize = read_u32(bytes, 20).unwrap() as usize;
                if length < 36 || length > MAX_ACPI_TABLE_SIZE {
                    return Err(Error::InvalidRsdp);
                }
                Ok(Discovery::WholePointer { address, length })
            },
            Discovery::WholePointer { .. } => {
                if !checksum_is_zero(bytes) {
                    return Err(Error::InvalidRsdp);
                }
                root_from_pointer(bytes, true)
            },
            Discovery::RootHeader { root } => {
                let length: usize = length_from_header(bytes)?;
                Ok(Discovery::Root { root, length })
            },
            Discovery::Root { root, .. } => {
                let signature = if root.extended {
                    XSDT_SIGNATURE
                } else {
                    RSDT_SIGNATURE
                };
                let size: usize = if root.extended {
                    8
                } else {
                    4
                };
                if !checksum_is_zero(bytes) || !same_bytes(
                    slice_subrange(bytes, 0, 4),
                    &signature,
                ) || (bytes.len() - 36) % size != 0 {
                    return Err(Error::InvalidTable);
                }
                let tables = read_root_entries(bytes, root.extended);
                if tables.len() == 0 {
                    return Ok(Discovery::Finished(None));
                }
                Ok(Discovery::Headers { tables, at: 0 })
            },
            Discovery::Headers { tables, at } => {
                let dmar = DMAR_SIGNATURE;
                let ivrs = IVRS_SIGNATURE;
                let signature = slice_subrange(bytes, 0, 4);
                if same_bytes(signature, &dmar) || same_bytes(signature, &ivrs) {
                    return Ok(Discovery::TableHeader { address: tables[at] });
                }
                if at < tables.len() - 1 {
                    Ok(Discovery::Headers { tables, at: at + 1 })
                } else {
                    Ok(Discovery::Finished(None))
                }
            },
            Discovery::TableHeader { address } => {
                let length: usize = length_from_header(bytes)?;
                Ok(Discovery::Table { address, length })
            },
            Discovery::Table { .. } => {
                if !checksum_is_zero(bytes) {
                    return Err(Error::InvalidTable);
                }
                let dmar = DMAR_SIGNATURE;
                let topology = if same_bytes(slice_subrange(bytes, 0, 4), &dmar) {
                    parse_dmar(bytes)?
                } else {
                    parse_ivrs(bytes)?
                };
                Ok(Discovery::Finished(Some(topology)))
            },
            Discovery::Finished(topology) => Ok(Discovery::Finished(topology)),
        }
    }
}

/// The sum of two pieces is the sum of their sums, so that every byte counts.
pub proof fn law_sum_counts_every_byte(a: Seq<u8>, b: Seq<u8>, n: int)
    requires
        0 <= n <= b.len(),
    ensures
        byte_sum(a + b, a.len() + n) == byte_sum(a, a.len() as int) + byte_sum(b, n),
        byte_sum(b, 0) == 0,
        n > 0 ==> byte_sum(b, n) == byte_sum(b, n - 1) + b[n - 1],
    decreases n,
{
    if n > 0 {
        law_sum_counts_every_byte(a, b, n - 1);
        assert((a + b)[a.len() + n - 1] == b[n - 1]);
    } else {
        lemma_sum_prefix(a, b, a.len() as int);
    }
}

proof fn lemma_sum_prefix(a: Seq<u8>, b: Seq<u8>, n: int)
    requires
        0 <= n <= a.len(),
    ensures
        byte_sum(a + b, n) == byte_sum(a, n),
    decreases n,
{
    if n > 0 {
        lemma_sum_prefix(a, b, n - 1);
        assert((a + b)[n - 1] == a[n - 1]);
    }
}

/// Whether the bytes start with four letters.
pub open spec fn is_signed(bytes: Seq<u8>, a: u8, b: u8, c: u8, d: u8) -> bool {
    bytes.len() >= 4 && bytes[0] == a && bytes[1] == b && bytes[2] == c && bytes[3] == d
}

proof fn lemma_signed(bytes: Seq<u8>, signature: Seq<u8>)
    requires
        bytes.len() >= 4,
        signature.len() == 4,
    ensures
        bytes.subrange(0, 4) == signature <==> is_signed(
            bytes,
            signature[0],
            signature[1],
            signature[2],
            signature[3],
        ),
{
    let first = bytes.subrange(0, 4);
    assert(first[0] == bytes[0] && first[1] == bytes[1] && first[2] == bytes[2] && first[3]
        == bytes[3]);
    if is_signed(bytes, signature[0], signature[1], signature[2], signature[3]) {
        assert(first =~= signature);
    }
}

/// A table of remapping units is one signed DMAR or IVRS of at least 48 bytes, as long as
/// its length field at 4 says, whose bytes add up to zero modulo 256; anything else is
/// refused, and so is one without a unit. Its kind is that of its signature.
pub proof fn law_unit_table_is_signed_and_whole(intel: bool, table: Seq<u8>)
    requires
        topology_of(intel, table) is Ok,
    ensures
        table.len() >= 48,
        intel ==> is_signed(table, 0x44, 0x4d, 0x41, 0x52),
        !intel ==> is_signed(table, 0x49, 0x56, 0x52, 0x53),
        u32_at(table, 4) == table.len(),
        byte_sum(table, table.len() as int) % 0x100 == 0,
        topology_of(intel, table)->Ok_0.units.len() > 0,
        with_structures(
            intel,
            table.skip(48),
            (TopologyView {
                kind: if intel {
                    IommuKind::IntelVtd
                } else {
                    IommuKind::AmdVi
                },
                units: Seq::empty(),
                reserved: Seq::empty(),
            }),
        ) == topology_of(intel, table),
{
    lemma_signed(table, DMAR_SIGNATURE@);
    lemma_signed(table, IVRS_SIGNATURE@);
    assert(table.subrange(48, table.len() as int) =~= table.skip(48));
}

/// Every structure of a table counts: what follows some structures is added to what they
/// give, and a structure that is wrong makes the table wrong.
pub proof fn law_every_structure_counts(intel: bool, a: Seq<u8>, b: Seq<u8>, t: TopologyView)
    ensures
        with_structures(intel, a, t) matches Ok(u) ==> with_structures(intel, a + b, t)
            == with_structures(intel, b, u),
    decreases a.len(),
{
    if with_structures(intel, a, t) is Ok {
        if a.len() == 0 {
            assert(a + b =~= b);
        } else {
            let s = a + b;
            let length = u16_at(a, 2) as int;
            assert(s[0] == a[0] && s[1] == a[1] && s[2] == a[2] && s[3] == a[3]);
            assert(s.subrange(0, length) =~= a.subrange(0, length));
            let rest = a.subrange(length, a.len() as int);
            assert(s.subrange(length, s.len() as int) =~= rest + b);
            let next = if intel {
                with_dmar_structure(u16_at(a, 0), a.subrange(0, length), t)
            } else {
                with_ivrs_structure(u16_at(a, 0), a.subrange(0, length), t)
            };
            law_every_structure_counts(intel, rest, b, next->Ok_0);
        }
    }
}

/// What one structure gives: its kind stands at 0 and its length at 2. Of a VT-d table,
/// kind 0 is a unit, with its segment at 6, its registers at 8, bit 0 at 4 for the rest of
/// its segment and its scopes from 16 on; kind 1 is reserved memory. Of an AMD-Vi table,
/// kinds 0x10, 0x11 and 0x40 are units, with their registers at 8 and their segment at 16.
/// Any other kind adds nothing.
pub proof fn law_structure_gives_its_unit(s: Seq<u8>, t: TopologyView)
    requires
        4 <= s.len(),
        u16_at(s, 2) == s.len(),
    ensures
        u16_at(s, 0) == 0 && s.len() >= 16 ==> with_structures(true, s, t) == (match direct_scopes(
            s.skip(16),
            Seq::empty(),
        ) {
            Err(e) => Err(e),
            Ok(scopes) => with_unit(
                t,
                UnitView {
                    segment: u16_at(s, 6),
                    register_base: u64_at(s, 8),
                    include_all: s[4] & 1 != 0,
                    scopes,
                },
            ),
        }),
        u16_at(s, 0) == 0 && s.len() < 16 ==> with_structures(true, s, t) == Err::<
            TopologyView,
            Error,
        >(Error::InvalidTable),
        u16_at(s, 0) == 1 ==> with_structures(true, s, t) == with_region(s, t),
        u16_at(s, 0) > 1 ==> with_structures(true, s, t) == Ok::<TopologyView, Error>(t),
        s[0] == 0x10 || s[0] == 0x11 || s[0] == 0x40 ==> with_structures(false, s, t) == (if s.len()
            < 24 {
            Err(Error::InvalidTable)
        } else {
            with_unit(
                t,
                UnitView {
                    segment: u16_at(s, 16),
                    register_base: u64_at(s, 8),
                    include_all: true,
                    scopes: Seq::empty(),
                },
            )
        }),
        s[0] != 0x10 && s[0] != 0x11 && s[0] != 0x40 ==> with_structures(false, s, t) == Ok::<
            TopologyView,
            Error,
        >(t),
{
    let n = s.len() as int;
    assert(s.subrange(0, n) =~= s);
    assert(s.subrange(n, n) =~= Seq::<u8>::empty());
    assert(s.subrange(16, n) =~= s.skip(16)) by {
        if n < 16 {
        }
    }
    assert(u16_at(s, 0) % 0x100 == s[0]);
    reveal_with_fuel(with_structures, 3);
}

/// A scope is read by its type at 0, its length at 1 and, behind the bus at 5, its path. An
/// endpoint or a bridge on the bus itself (type 1 or 2 with a path of one device and
/// function) is named by its requester; any other sound scope names nothing; and one whose
/// length is odd, below 8 or beyond the bytes is refused.
pub proof fn law_scope_names_its_function(s: Seq<u8>, known: Seq<u16>)
    requires
        s.len() > 0,
    ensures
        s.len() < 6 || s[1] < 8 || s[1] % 2 == 1 || s[1] > s.len() ==> direct_scopes(s, known)
            == Err::<Seq<u16>, Error>(Error::InvalidTable),
        s.len() >= 8 && s[1] == 8 && (s[0] == 1 || s[0] == 2) ==> direct_scopes(s, known) == (if s[6]
            >= 32 || s[7] >= 8 {
            Err(Error::InvalidTable)
        } else if known.len() >= 8 {
            Err(Error::TooManyUnits)
        } else {
            direct_scopes(
                s.skip(8),
                known.push((0x100 * s[5] + 8 * s[6] + s[7]) as u16),
            )
        }),
        s.len() >= 8 && 8 <= s[1] <= s.len() && s[1] % 2 == 0 && (s[1] > 8 || s[0] == 0 || s[0] > 2)
            ==> direct_scopes(s, known) == direct_scopes(s.skip(s[1] as int), known),
{
    if s.len() >= 8 && s[1] <= s.len() {
        assert(s.subrange(s[1] as int, s.len() as int) =~= s.skip(s[1] as int));
        if s[6] < 32 && s[7] < 8 {
            law_requester_parts_are_inverse(0, s[5], s[6], s[7]);
        }
    }
}

/// Reserved memory lies between whole pages, from the base at 8 to the limit at 16, for the
/// endpoints on the bus itself (type 1) that its scopes from 24 on name, in the segment at
/// 6.
pub proof fn law_reserved_memory_is_read(s: Seq<u8>, t: TopologyView)
    ensures
        s.len() < 24 || u64_at(s, 8) % 0x1000 != 0 || u64_at(s, 16) % 0x1000 != 0xfff || u64_at(
            s,
            16,
        ) < u64_at(s, 8) ==> with_region(s, t) == Err::<TopologyView, Error>(Error::InvalidTable),
        s.len() >= 24 && u64_at(s, 8) % 0x1000 == 0 && u64_at(s, 16) % 0x1000 == 0xfff && u64_at(
            s,
            8,
        ) <= u64_at(s, 16) ==> with_region(s, t) == reserved_scopes(
            s.skip(24),
            u16_at(s, 6),
            u64_at(s, 8),
            u64_at(s, 16),
            t,
        ),
{
    if s.len() >= 24 {
        assert(s.subrange(24, s.len() as int) =~= s.skip(24));
    }
}

/// Each endpoint that a reserved range's scopes name is given that range, up to 32 of them.
pub proof fn law_reserved_scope_names_its_function(
    s: Seq<u8>,
    segment: u16,
    base: u64,
    limit: u64,
    t: TopologyView,
)
    requires
        s.len() > 0,
    ensures
        s.len() < 6 || s[1] < 8 || s[1] % 2 == 1 || s[1] > s.len() ==> reserved_scopes(
            s,
            segment,
            base,
            limit,
            t,
        ) == Err::<TopologyView, Error>(Error::InvalidTable),
        s.len() >= 8 && s[1] == 8 && s[0] == 1 ==> reserved_scopes(s, segment, base, limit, t) == (if
            s[6] >= 32 || s[7] >= 8 {
            Err(Error::InvalidTable)
        } else if t.reserved.len() >= 32 {
            Err(Error::TooManyReservedMappings)
        } else {
            reserved_scopes(
                s.skip(8),
                segment,
                base,
                limit,
                TopologyView {
                    reserved: t.reserved.push(
                        ReservedMapping {
                            segment,
                            requester: (0x100 * s[5] + 8 * s[6] + s[7]) as u16,
                            base,
                            limit,
                        },
                    ),
                    ..t
                },
            )
        }),
        s.len() >= 8 && 8 <= s[1] <= s.len() && s[1] % 2 == 0 && (s[1] > 8 || s[0] != 1)
            ==> reserved_scopes(s, segment, base, limit, t) == reserved_scopes(
            s.skip(s[1] as int),
            segment,
            base,
            limit,
            t,
        ),
{
    if s.len() >= 8 && s[1] <= s.len() {
        assert(s.subrange(s[1] as int, s.len() as int) =~= s.skip(s[1] as int));
        if s[6] < 32 && s[7] < 8 {
            law_requester_parts_are_inverse(0, s[5], s[6], s[7]);
        }
    }
}

/// The search starts at a pointer signed `RSD PTR `, whose first twenty bytes add up to
/// zero. From revision 2 on all of it must, with its length at 20, and the table of 64-bit
/// addresses at 24 is used where it is given; else the table of 32-bit addresses at 16.
pub proof fn law_root_pointer_names_the_root_table(address: u64, length: usize, bytes: Seq<u8>)
    ensures
        ({
            let d = discovered(DiscoveryView::Pointer { address }, bytes);
            let signed = is_signed(bytes, 0x52, 0x53, 0x44, 0x20) && is_signed(
                bytes.skip(4),
                0x50,
                0x54,
                0x52,
                0x20,
            );
            bytes.len() == 20 ==> {
                &&& !signed || byte_sum(bytes, 20) % 0x100 != 0 ==> d == Err::<DiscoveryView, Error>(
                    Error::InvalidRsdp,
                )
                &&& signed && byte_sum(bytes, 20) % 0x100 == 0 && bytes[15] >= 2 ==> d == Ok::<
                    DiscoveryView,
                    Error,
                >(DiscoveryView::LongPointer { address })
                &&& signed && byte_sum(bytes, 20) % 0x100 == 0 && bytes[15] < 2 ==> d == (if u32_at(
                    bytes,
                    16,
                ) == 0 {
                    Err(Error::InvalidRsdp)
                } else {
                    Ok(
                        DiscoveryView::RootHeader {
                            root: RootTable { address: u32_at(bytes, 16) as u64, extended: false },
                        },
                    )
                })
            }
        }),
        discovered(DiscoveryView::LongPointer { address }, bytes) == (if 36 <= u32_at(bytes, 20)
            <= 0x10_0000 {
            Ok(DiscoveryView::WholePointer { address, length: u32_at(bytes, 20) as usize })
        } else {
            Err(Error::InvalidRsdp)
        }),
        byte_sum(bytes, bytes.len() as int) % 0x100 != 0 ==> discovered(
            DiscoveryView::WholePointer { address, length },
            bytes,
        ) == Err::<DiscoveryView, Error>(Error::InvalidRsdp),
        byte_sum(bytes, bytes.len() as int) % 0x100 == 0 && u64_at(bytes, 24) != 0 ==> discovered(
            DiscoveryView::WholePointer { address, length },
            bytes,
        ) == Ok::<DiscoveryView, Error>(
            DiscoveryView::RootHeader {
                root: RootTable { address: u64_at(bytes, 24), extended: true },
            },
        ),
{
    if bytes.len() == 20 {
        let name = RSDP_SIGNATURE@;
        let first = bytes.subrange(0, 8);
        assert(first[0] == bytes[0] && first[1] == bytes[1] && first[2] == bytes[2] && first[3]
            == bytes[3] && first[4] == bytes[4] && first[5] == bytes[5] && first[6] == bytes[6]
            && first[7] == bytes[7]);
        assert(name[0] == 0x52 && name[1] == 0x53 && name[2] == 0x44 && name[3] == 0x20 && name[4]
            == 0x50 && name[5] == 0x54 && name[6] == 0x52 && name[7] == 0x20);
        let rest = bytes.skip(4);
        assert(rest[0] == bytes[4] && rest[1] == bytes[5] && rest[2] == bytes[6] && rest[3]
            == bytes[7]);
        if is_signed(bytes, 0x52, 0x53, 0x44, 0x20) && is_signed(rest, 0x50, 0x54, 0x52, 0x20) {
            assert(first =~= name);
        }
    }
}

/// A root table, signed XSDT for addresses of eight bytes and RSDT for addresses of four,
/// must add up to zero and hold whole addresses behind its header of 36 bytes; the search
/// then looks at every one of them in turn.
pub proof fn law_root_table_lists_the_tables(root: RootTable, length: usize, bytes: Seq<u8>)
    requires
        bytes.len() >= 36,
    ensures
        ({
            let d = discovered(DiscoveryView::Root { root, length }, bytes);
            let size: int = if root.extended {
                8
            } else {
                4
            };
            let signed = if root.extended {
                is_signed(bytes, 0x58, 0x53, 0x44, 0x54)
            } else {
                is_signed(bytes, 0x52, 0x53, 0x44, 0x54)
            };
            let sound = signed && byte_sum(bytes, bytes.len() as int) % 0x100 == 0 && (bytes.len()
                - 36) % size == 0;
            &&& !sound ==> d == Err::<DiscoveryView, Error>(Error::InvalidTable)
            &&& sound && bytes.len() == 36 ==> d == Ok::<DiscoveryView, Error>(
                DiscoveryView::Finished { topology: None },
            )
            &&& sound && bytes.len() > 36 ==> (d matches Ok(DiscoveryView::Headers { tables, at })
                && at == 0 && size * tables.len() == bytes.len() - 36 && forall|i: int|
                0 <= i < tables.len() ==> #[trigger] tables[i] == (if root.extended {
                    u64_at(bytes, 36 + 8 * i)
                } else {
                    u32_at(bytes, 36 + 4 * i) as u64
                }))
        }),
{
    lemma_signed(bytes, XSDT_SIGNATURE@);
    lemma_signed(bytes, RSDT_SIGNATURE@);
}

/// The search takes the first table that is signed DMAR or IVRS, passes over every other,
/// and finds no units exactly behind the last of them. A header's length is at 4, at least
/// its 36 bytes and at most a MiB.
pub proof fn law_search_takes_the_first_unit_table(tables: Seq<u64>, at: int, bytes: Seq<u8>)
    requires
        0 <= at < tables.len(),
        bytes.len() >= 36,
    ensures
        ({
            let d = discovered(DiscoveryView::Headers { tables, at }, bytes);
            let found = is_signed(bytes, 0x44, 0x4d, 0x41, 0x52) || is_signed(
                bytes,
                0x49,
                0x56,
                0x52,
                0x53,
            );
            &&& found ==> d == Ok::<DiscoveryView, Error>(
                DiscoveryView::TableHeader { address: tables[at] },
            )
            &&& !found && at + 1 < tables.len() ==> d == Ok::<DiscoveryView, Error>(
                DiscoveryView::Headers { tables, at: at + 1 },
            )
            &&& !found && at + 1 == tables.len() ==> d == Ok::<DiscoveryView, Error>(
                DiscoveryView::Finished { topology: None },
            )
        }),
        table_length(bytes) == (if 36 <= u32_at(bytes, 4) <= 0x10_0000 {
            Some(u32_at(bytes, 4) as usize)
        } else {
            None
        }),
{
    lemma_signed(bytes, DMAR_SIGNATURE@);
    lemma_signed(bytes, IVRS_SIGNATURE@);
}

/// Every part of memory that the search asks for is the one it has to judge next: twenty
/// bytes of the pointer, 36 of a header, and else the whole length that was read.
pub proof fn law_search_asks_for_what_it_judges(
    address: u64,
    root: RootTable,
    tables: Seq<u64>,
    at: int,
    length: usize,
)
    ensures
        wanted(DiscoveryView::Pointer { address }) == (address, 20int),
        wanted(DiscoveryView::LongPointer { address }) == (address, 36int),
        wanted(DiscoveryView::WholePointer { address, length }) == (address, length as int),
        wanted(DiscoveryView::RootHeader { root }) == (root.address, 36int),
        wanted(DiscoveryView::Root { root, length }) == (root.address, length as int),
        wanted(DiscoveryView::Headers { tables, at }) == (tables[at], 36int),
        wanted(DiscoveryView::TableHeader { address }) == (address, 36int),
        wanted(DiscoveryView::Table { address, length }) == (address, length as int),
{
}

} // verus!
