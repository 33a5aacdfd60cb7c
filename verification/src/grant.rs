//! Memory that one Domain lends to another, page by page.

use vstd::prelude::*;

use crate::domain::DomainId;

verus! {

pub const MAX_GRANTS: usize = 64;

/// Names a grant: a slot of the table, and how often that slot has been used.
#[derive(Clone, Copy, Debug, PartialEq, Eq, Structural)]
pub struct GrantRef {
    value: u32,
}

#[derive(Clone, Copy, Debug, PartialEq, Eq, Structural)]
pub enum GrantError {
    InvalidPage,
    InvalidTarget,
    TableFull,
    UnknownGrant,
    AccessDenied,
    AlreadyMapped,
    NotMapped,
    Busy,
}

/// Pages of the owner that the target may map.
#[derive(Clone, Copy, Debug)]
pub struct Grant {
    pub owner: DomainId,
    pub target: DomainId,
    pub host_page: u64,
    pub page_count: u32,
    pub writable: bool,
    pub target_page: Option<u64>,
}

#[derive(Clone, Copy, Debug)]
pub struct GrantSlot {
    pub generation: u32,
    pub grant: Option<Grant>,
}

#[derive(Clone, Copy, Debug, PartialEq, Eq, Structural)]
pub struct GrantMapping {
    pub owner: DomainId,
    pub target: DomainId,
    pub host_page: u64,
    pub target_page: u64,
    pub page_count: u32,
    pub writable: bool,
}

pub struct GrantTable {
    grants: [GrantSlot; 64],
}

impl View for GrantTable {
    type V = Seq<GrantSlot>;

    closed spec fn view(&self) -> Seq<GrantSlot> {
        self.grants@
    }
}

impl GrantRef {
    /// The number of the reference.
    pub closed spec fn number(self) -> u32 {
        self.value
    }

    /// The slot that the reference names.
    pub open spec fn slot(self) -> int {
        self.number() % 0x100 - 1
    }

    pub open spec fn spec_generation(self) -> int {
        self.number() as int / 0x100
    }

    /// The reference names a slot of the table, and that slot was used.
    pub open spec fn wf(self) -> bool {
        is_reference(self.number())
    }

    /// A reference by its number.
    pub fn new(value: u32) -> (r: Option<Self>)
        ensures
            match r {
                Some(reference) => is_reference(value) && reference.number() == value,
                None => !is_reference(value),
            },
    {
        let slot: u32 = value % 0x100;
        if slot == 0 || slot > 64 || value / 0x100 == 0 {
            None
        } else {
            Some(GrantRef { value })
        }
    }

    pub fn get(self) -> (r: u32)
        ensures
            r == self.number(),
    {
        self.value
    }

    fn index(self) -> (r: usize)
        requires
            self.wf(),
        ensures
            r == self.slot(),
            r < 64,
    {
        (self.value % 0x100) as usize - 1
    }

    fn generation(self) -> (r: u32)
        ensures
            r == self.spec_generation(),
    {
        self.value / 0x100
    }
}

/// The number names a slot of the table, and that slot was used.
pub open spec fn is_reference(value: u32) -> bool {
    1 <= value % 0x100 <= MAX_GRANTS && value / 0x100 != 0
}

/// The number of the grant in a slot.
pub open spec fn reference_number(slot: int, generation: u32) -> int {
    generation * 0x100 + slot + 1
}

/// The range `start..start + pages` meets the range of a mapped grant.
pub open spec fn meets(grant: Grant, start: int, pages: int) -> bool {
    match grant.target_page {
        Some(page) => start < page + 0x1000 * grant.page_count && page < start + 0x1000 * pages,
        None => false,
    }
}

/// Some grant is mapped by the target in the range.
pub open spec fn is_mapped(s: Seq<GrantSlot>, target: DomainId, start: int, pages: int) -> bool {
    exists|i: int|
        0 <= i < s.len() && has_mapping(#[trigger] s[i], target, start, pages)
}

pub open spec fn has_mapping(slot: GrantSlot, target: DomainId, start: int, pages: int) -> bool {
    match slot.grant {
        Some(grant) => grant.target == target && meets(grant, start, pages),
        None => false,
    }
}

/// A grant of whole pages between two Domains, mapped at whole pages.
pub open spec fn is_grant(grant: Grant) -> bool {
    &&& grant.owner != grant.target
    &&& grant.host_page != 0 && grant.host_page % 0x1000 == 0
    &&& grant.page_count > 0
    &&& grant.host_page + 0x1000 * grant.page_count <= u64::MAX
    &&& match grant.target_page {
        Some(page) => page % 0x1000 == 0 && page + 0x1000 * grant.page_count <= u64::MAX,
        None => true,
    }
}

pub open spec fn is_slot(slot: GrantSlot) -> bool {
    &&& slot.generation < 0x100_0000
    &&& match slot.grant {
        Some(grant) => is_grant(grant) && slot.generation > 0,
        None => true,
    }
}

/// Two slots whose grants do not share a page of a target.
pub open spec fn are_apart(a: GrantSlot, b: GrantSlot) -> bool {
    match a.grant {
        Some(first) => match first.target_page {
            Some(page) => !has_mapping(b, first.target, page as int, first.page_count as int),
            None => true,
        },
        None => true,
    }
}

/// Sound slots, no two of which share a page of a target.
pub open spec fn is_table(s: Seq<GrantSlot>) -> bool {
    &&& s.len() == 64
    &&& forall|i: int| 0 <= i < 64 ==> is_slot(#[trigger] s[i])
    &&& forall|i: int, j: int|
        0 <= i < 64 && 0 <= j < 64 && i != j ==> are_apart(#[trigger] s[i], #[trigger] s[j])
}

/// The grant that a reference names, if it is still the one in its slot.
pub open spec fn named(s: Seq<GrantSlot>, reference: GrantRef) -> Option<Grant> {
    let slot = s[reference.slot()];
    if slot.generation == reference.spec_generation() {
        slot.grant
    } else {
        None
    }
}

/// The first free slot from `i` on.
pub open spec fn free_slot(s: Seq<GrantSlot>, i: int) -> int
    decreases s.len() - i,
{
    if i < 0 || i >= s.len() || s[i].grant is None {
        i
    } else {
        free_slot(s, i + 1)
    }
}

/// The generation behind another; it is never zero.
pub open spec fn next_generation(generation: u32) -> u32 {
    let next = ((generation + 1) % 0x100_0000) as u32;
    if next == 0 {
        1
    } else {
        next
    }
}

/// Pages that can be granted.
pub open spec fn is_grantable(host_page: u64, page_count: u32) -> bool {
    &&& host_page != 0 && host_page % 0x1000 == 0
    &&& page_count != 0
    &&& host_page + 0x1000 * page_count <= u64::MAX
}

/// A mapped grant as both sides see it.
pub open spec fn mapping_of(grant: Grant, target_page: u64) -> GrantMapping {
    GrantMapping {
        owner: grant.owner,
        target: grant.target,
        host_page: grant.host_page,
        target_page,
        page_count: grant.page_count,
        writable: grant.writable,
    }
}

/// The table with one grant changed.
pub open spec fn with_grant(s: Seq<GrantSlot>, slot: int, grant: Option<Grant>) -> Seq<GrantSlot> {
    s.update(slot, GrantSlot { generation: s[slot].generation, grant })
}

/// What mapping a grant gives.
pub open spec fn mapped(
    s: Seq<GrantSlot>,
    target: DomainId,
    reference: GrantRef,
    target_page: u64,
) -> Result<GrantMapping, GrantError> {
    if target_page % 0x1000 != 0 {
        Err(GrantError::InvalidPage)
    } else {
        match named(s, reference) {
            None => Err(GrantError::UnknownGrant),
            Some(grant) => if grant.target != target {
                Err(GrantError::AccessDenied)
            } else if grant.target_page is Some || target_page + 0x1000 * grant.page_count
                > u64::MAX || is_mapped(
                s,
                target,
                target_page as int,
                grant.page_count as int,
            ) {
                Err(GrantError::AlreadyMapped)
            } else {
                Ok(mapping_of(grant, target_page))
            },
        }
    }
}

/// The grant as it was before it was mapped, or mapped elsewhere.
pub open spec fn moved(grant: Grant, target_page: Option<u64>) -> Grant {
    Grant { target_page, ..grant }
}

/// What unmapping a grant gives.
pub open spec fn unmapped(
    s: Seq<GrantSlot>,
    target: DomainId,
    reference: GrantRef,
) -> Result<GrantMapping, GrantError> {
    match named(s, reference) {
        None => Err(GrantError::UnknownGrant),
        Some(grant) => if grant.target != target {
            Err(GrantError::AccessDenied)
        } else {
            match grant.target_page {
                None => Err(GrantError::NotMapped),
                Some(page) => Ok(mapping_of(grant, page)),
            }
        },
    }
}

/// What revoking a grant gives.
pub open spec fn revoked(
    s: Seq<GrantSlot>,
    owner: DomainId,
    reference: GrantRef,
) -> Result<(), GrantError> {
    match named(s, reference) {
        None => Err(GrantError::UnknownGrant),
        Some(grant) => if grant.owner != owner {
            Err(GrantError::AccessDenied)
        } else if grant.target_page is Some {
            Err(GrantError::Busy)
        } else {
            Ok(())
        },
    }
}

pub open spec fn is_party(slot: GrantSlot, domain: DomainId) -> bool {
    match slot.grant {
        Some(grant) => grant.owner == domain || grant.target == domain,
        None => false,
    }
}

pub open spec fn is_target(slot: GrantSlot, target: DomainId) -> bool {
    match slot.grant {
        Some(grant) => grant.target == target,
        None => false,
    }
}

/// The slot of the `ordinal`-th grant for a target, from slot `i` on.
pub open spec fn target_slot(
    s: Seq<GrantSlot>,
    target: DomainId,
    ordinal: int,
    i: int,
) -> Option<int>
    decreases s.len() - i,
{
    if i < 0 || i >= s.len() {
        None
    } else if !is_target(s[i], target) {
        target_slot(s, target, ordinal, i + 1)
    } else if ordinal == 0 {
        Some(i)
    } else {
        target_slot(s, target, ordinal - 1, i + 1)
    }
}

/// A grant that ends when the Domain stops. One that the Domain could map but
/// has not ends only if the Domain crashed.
pub open spec fn ends(slot: GrantSlot, domain: DomainId, crashed: bool) -> bool {
    match slot.grant {
        Some(grant) => grant.owner == domain || (grant.target == domain && (crashed
            || grant.target_page is Some)),
        None => false,
    }
}

/// The slot once the Domain has stopped.
pub open spec fn swept(slot: GrantSlot, domain: DomainId, crashed: bool) -> GrantSlot {
    if ends(slot, domain, crashed) {
        GrantSlot { generation: slot.generation, grant: None }
    } else {
        slot
    }
}

/// The mappings of the first `n` slots that end with the Domain.
pub open spec fn ended(
    s: Seq<GrantSlot>,
    domain: DomainId,
    crashed: bool,
    n: int,
) -> Seq<GrantMapping>
    decreases n,
{
    if n <= 0 {
        Seq::empty()
    } else {
        let before = ended(s, domain, crashed, n - 1);
        match s[n - 1].grant {
            Some(grant) => match grant.target_page {
                Some(page) => if ends(s[n - 1], domain, crashed) {
                    before.push(mapping_of(grant, page))
                } else {
                    before
                },
                None => before,
            },
            None => before,
        }
    }
}

/// The first entries of the array, and nothing behind them.
pub open spec fn lists(a: Seq<Option<GrantMapping>>, s: Seq<GrantMapping>) -> bool {
    &&& a.len() == 64
    &&& s.len() <= 64
    &&& forall|i: int|
        0 <= i < 64 ==> #[trigger] a[i] == (if i < s.len() {
            Some(s[i])
        } else {
            None
        })
}

proof fn lemma_free_slot(s: Seq<GrantSlot>, i: int)
    requires
        0 <= i <= s.len(),
    ensures
        i <= free_slot(s, i) <= s.len(),
        free_slot(s, i) < s.len() ==> s[free_slot(s, i)].grant is None,
        forall|j: int| i <= j < free_slot(s, i) ==> (#[trigger] s[j]).grant is Some,
    decreases s.len() - i,
{
    if i < s.len() && s[i].grant is Some {
        lemma_free_slot(s, i + 1);
    }
}

/// A slot without a mapping is apart from every other.
proof fn lemma_update(s: Seq<GrantSlot>, i: int, slot: GrantSlot)
    requires
        is_table(s),
        0 <= i < 64,
        is_slot(slot),
        forall|j: int| 0 <= j < 64 && j != i ==> are_apart(slot, #[trigger] s[j]),
        forall|j: int| 0 <= j < 64 && j != i ==> are_apart(#[trigger] s[j], slot),
    ensures
        is_table(s.update(i, slot)),
{
}

impl GrantTable {
    /// Sound slots, no two of which share a page of a target.
    pub open spec fn wf(&self) -> bool {
        is_table(self@)
    }

    /// A table without any grant.
    pub fn new() -> (r: Self)
        ensures
            r.wf(),
            forall|i: int|
                0 <= i < 64 ==> #[trigger] r@[i] == (GrantSlot { generation: 0, grant: None }),
    {
        let empty = GrantSlot { generation: 0, grant: None };
        GrantTable { grants: [empty; 64] }
    }

    /// Grants one page.
    pub fn create(
        &mut self,
        owner: DomainId,
        target: DomainId,
        host_page: u64,
        writable: bool,
    ) -> (r: Result<GrantRef, GrantError>)
        requires
            old(self).wf(),
        ensures
            final(self).wf(),
            created(old(self)@, owner, target, host_page, 1, writable, r, final(self)@),
    {
        self.create_range(owner, target, host_page, 1, writable)
    }

    /// Grants pages that follow one another.
    pub fn create_range(
        &mut self,
        owner: DomainId,
        target: DomainId,
        host_page: u64,
        page_count: u32,
        writable: bool,
    ) -> (r: Result<GrantRef, GrantError>)
        requires
            old(self).wf(),
        ensures
            final(self).wf(),
            created(old(self)@, owner, target, host_page, page_count, writable, r, final(self)@),
    {
        if owner == target {
            return Err(GrantError::InvalidTarget);
        }
        if host_page == 0 || host_page % 0x1000 != 0 || page_count == 0 || host_page > u64::MAX
            - page_count as u64 * 0x1000 {
            return Err(GrantError::InvalidPage);
        }
        let mut index: usize = 0;
        while index < 64 && self.grants[index].grant.is_some()
            invariant
                *self == *old(self),
                self.wf(),
                index <= 64,
                free_slot(self@, 0) == free_slot(self@, index as int),
            decreases 64 - index,
        {
            index += 1;
        }
        if index == 64 {
            return Err(GrantError::TableFull);
        }
        let mut generation: u32 = (self.grants[index].generation + 1) % 0x100_0000;
        if generation == 0 {
            generation = 1;
        }
        let grant = Grant { owner, target, host_page, page_count, writable, target_page: None };
        let slot = GrantSlot { generation, grant: Some(grant) };
        proof {
            lemma_update(self@, index as int, slot);
        }
        self.grants[index] = slot;
        assert(self@ =~= old(self)@.update(index as int, slot));
        Ok(GrantRef { value: generation * 0x100 + index as u32 + 1 })
    }

    /// The grant that a reference names.
    fn grant(&self, reference: GrantRef) -> (r: Result<Grant, GrantError>)
        requires
            self.wf(),
            reference.wf(),
        ensures
            match named(self@, reference) {
                Some(grant) => r == Ok::<Grant, GrantError>(grant),
                None => r == Err::<Grant, GrantError>(GrantError::UnknownGrant),
            },
    {
        let slot = self.grants[reference.index()];
        if slot.generation != reference.generation() {
            return Err(GrantError::UnknownGrant);
        }
        match slot.grant {
            Some(grant) => Ok(grant),
            None => Err(GrantError::UnknownGrant),
        }
    }

    fn set_grant(&mut self, index: usize, grant: Option<Grant>)
        requires
            old(self)@.len() == 64,
            index < 64,
        ensures
            final(self)@ == with_grant(old(self)@, index as int, grant),
    {
        let generation: u32 = self.grants[index].generation;
        self.grants[index] = GrantSlot { generation, grant };
        assert(self@ =~= with_grant(old(self)@, index as int, grant));
    }

    /// Maps a grant into its target.
    pub fn map(
        &mut self,
        target: DomainId,
        reference: GrantRef,
        target_page: u64,
    ) -> (r: Result<GrantMapping, GrantError>)
        requires
            old(self).wf(),
            reference.wf(),
        ensures
            final(self).wf(),
            r == mapped(old(self)@, target, reference, target_page),
            final(self)@ == (if r is Ok {
                with_grant(
                    old(self)@,
                    reference.slot(),
                    Some(moved(named(old(self)@, reference)->0, Some(target_page))),
                )
            } else {
                old(self)@
            }),
    {
        if target_page % 0x1000 != 0 {
            return Err(GrantError::InvalidPage);
        }
        let grant = self.grant(reference)?;
        if grant.target != target {
            return Err(GrantError::AccessDenied);
        }
        if grant.target_page.is_some() {
            return Err(GrantError::AlreadyMapped);
        }
        if self.target_range_is_mapped(target, target_page, grant.page_count) {
            return Err(GrantError::AlreadyMapped);
        }
        let grant = Grant { target_page: Some(target_page), ..grant };
        proof {
            let i = reference.slot();
            let slot = GrantSlot { generation: self@[i].generation, grant: Some(grant) };
            assert(is_slot(self@[i]));
            assert forall|j: int| 0 <= j < 64 && j != i implies are_apart(
                slot,
                #[trigger] self@[j],
            ) && are_apart(self@[j], slot) by {
                assert(!has_mapping(self@[j], target, target_page as int, grant.page_count as int));
            }
            lemma_update(self@, i, slot);
        }
        self.set_grant(reference.index(), Some(grant));
        Ok(
            GrantMapping {
                owner: grant.owner,
                target,
                host_page: grant.host_page,
                target_page,
                page_count: grant.page_count,
                writable: grant.writable,
            },
        )
    }

    /// Unmaps a grant from its target.
    pub fn unmap(
        &mut self,
        target: DomainId,
        reference: GrantRef,
    ) -> (r: Result<GrantMapping, GrantError>)
        requires
            old(self).wf(),
            reference.wf(),
        ensures
            final(self).wf(),
            r == unmapped(old(self)@, target, reference),
            final(self)@ == (if r is Ok {
                with_grant(
                    old(self)@,
                    reference.slot(),
                    Some(moved(named(old(self)@, reference)->0, None)),
                )
            } else {
                old(self)@
            }),
    {
        let grant = self.grant(reference)?;
        if grant.target != target {
            return Err(GrantError::AccessDenied);
        }
        match grant.target_page {
            None => Err(GrantError::NotMapped),
            Some(target_page) => {
                let freed = Grant { target_page: None, ..grant };
                proof {
                    let i = reference.slot();
                    assert(is_slot(self@[i]));
                    lemma_update(
                        self@,
                        i,
                        (GrantSlot { generation: self@[i].generation, grant: Some(freed) }),
                    );
                }
                self.set_grant(reference.index(), Some(freed));
                Ok(
                    GrantMapping {
                        owner: grant.owner,
                        target,
                        host_page: grant.host_page,
                        target_page,
                        page_count: grant.page_count,
                        writable: grant.writable,
                    },
                )
            },
        }
    }

    /// Takes back a grant that is not mapped.
    pub fn revoke(&mut self, owner: DomainId, reference: GrantRef) -> (r: Result<(), GrantError>)
        requires
            old(self).wf(),
            reference.wf(),
        ensures
            final(self).wf(),
            r == revoked(old(self)@, owner, reference),
            final(self)@ == (if r is Ok {
                with_grant(old(self)@, reference.slot(), None)
            } else {
                old(self)@
            }),
    {
        let grant = self.grant(reference)?;
        if grant.owner != owner {
            return Err(GrantError::AccessDenied);
        }
        if grant.target_page.is_some() {
            return Err(GrantError::Busy);
        }
        proof {
            let i = reference.slot();
            assert(is_slot(self@[i]));
            lemma_update(
                self@,
                i,
                (GrantSlot { generation: self@[i].generation, grant: None }),
            );
        }
        self.set_grant(reference.index(), None);
        Ok(())
    }

    /// Whether a Domain is a party to any grant.
    pub fn references_domain(&self, domain: DomainId) -> (r: bool)
        requires
            self.wf(),
        ensures
            r == exists|i: int| 0 <= i < 64 && is_party(#[trigger] self@[i], domain),
    {
        let mut i: usize = 0;
        while i < 64
            invariant
                self.wf(),
                i <= 64,
                forall|j: int| 0 <= j < i ==> !is_party(#[trigger] self@[j], domain),
            decreases 64 - i,
        {
            if let Some(grant) = self.grants[i].grant {
                if grant.owner == domain || grant.target == domain {
                    assert(is_party(self@[i as int], domain));
                    return true;
                }
            }
            i += 1;
        }
        false
    }

    /// The `ordinal`-th grant that a Domain may map.
    pub fn query_target(&self, target: DomainId, ordinal: usize) -> (r: Option<GrantRef>)
        requires
            self.wf(),
        ensures
            match target_slot(self@, target, ordinal as int, 0) {
                Some(i) => r matches Some(reference) && reference.wf() && reference.number()
                    == reference_number(i, self@[i].generation),
                None => r is None,
            },
    {
        let mut left: usize = ordinal;
        let mut i: usize = 0;
        while i < 64
            invariant
                self.wf(),
                i <= 64,
                target_slot(self@, target, ordinal as int, 0) == target_slot(
                    self@,
                    target,
                    left as int,
                    i as int,
                ),
            decreases 64 - i,
        {
            let slot = self.grants[i];
            assert(is_slot(self@[i as int]));
            if let Some(grant) = slot.grant {
                if grant.target == target {
                    if left == 0 {
                        return Some(GrantRef { value: slot.generation * 0x100 + i as u32 + 1 });
                    }
                    left -= 1;
                }
            }
            i += 1;
        }
        None
    }

    /// How many pages a grant has, for its target.
    pub fn mapping_page_count(&self, target: DomainId, reference: GrantRef) -> (r: Option<u32>)
        requires
            self.wf(),
            reference.wf(),
        ensures
            r == (match named(self@, reference) {
                Some(grant) => if grant.target == target {
                    Some(grant.page_count)
                } else {
                    None
                },
                None => None,
            }),
    {
        match self.grant(reference) {
            Ok(grant) => if grant.target == target {
                Some(grant.page_count)
            } else {
                None
            },
            Err(_) => None,
        }
    }

    /// Ends the grants of a Domain that stopped. What was mapped is given back.
    pub fn cleanup_domain(&mut self, domain: DomainId) -> (r: [Option<GrantMapping>; 64])
        requires
            old(self).wf(),
        ensures
            final(self).wf(),
            final(self)@ == old(self)@.map_values(|slot: GrantSlot| swept(slot, domain, false)),
            lists(r@, ended(old(self)@, domain, false, 64)),
    {
        self.cleanup_domain_inner(domain, false)
    }

    /// Ends the grants of a Domain that crashed. What was mapped is given back.
    pub fn cleanup_crashed_domain(&mut self, domain: DomainId) -> (r: [Option<GrantMapping>; 64])
        requires
            old(self).wf(),
        ensures
            final(self).wf(),
            final(self)@ == old(self)@.map_values(|slot: GrantSlot| swept(slot, domain, true)),
            lists(r@, ended(old(self)@, domain, true, 64)),
    {
        self.cleanup_domain_inner(domain, true)
    }

    fn cleanup_domain_inner(
        &mut self,
        domain: DomainId,
        crashed: bool,
    ) -> (r: [Option<GrantMapping>; 64])
        requires
            old(self).wf(),
        ensures
            final(self).wf(),
            final(self)@ == old(self)@.map_values(|slot: GrantSlot| swept(slot, domain, crashed)),
            lists(r@, ended(old(self)@, domain, crashed, 64)),
    {
        let none: Option<GrantMapping> = None;
        let mut mappings: [Option<GrantMapping>; 64] = [none; 64];
        let mut count: usize = 0;
        let mut i: usize = 0;
        while i < 64
            invariant
                is_table(old(self)@),
                self@.len() == 64,
                i <= 64,
                count <= i,
                count == ended(old(self)@, domain, crashed, i as int).len(),
                lists(mappings@, ended(old(self)@, domain, crashed, i as int)),
                forall|j: int|
                    0 <= j < i ==> #[trigger] self@[j] == swept(old(self)@[j], domain, crashed),
                forall|j: int| i <= j < 64 ==> #[trigger] self@[j] == old(self)@[j],
            decreases 64 - i,
        {
            let ghost before = self@;
            assert(self@[i as int] == old(self)@[i as int]);
            if let Some(grant) = self.grants[i].grant {
                if grant.owner == domain || (grant.target == domain && (crashed
                    || grant.target_page.is_some())) {
                    if let Some(target_page) = grant.target_page {
                        mappings[count] =
                        Some(
                            GrantMapping {
                                owner: grant.owner,
                                target: grant.target,
                                host_page: grant.host_page,
                                target_page,
                                page_count: grant.page_count,
                                writable: grant.writable,
                            },
                        );
                        count += 1;
                    }
                    self.set_grant(i, None);
                }
            }
            i += 1;
        }
        proof {
            let after = old(self)@.map_values(|slot: GrantSlot| swept(slot, domain, crashed));
            assert(self@ =~= after);
            assert forall|k: int| 0 <= k < 64 implies is_slot(#[trigger] self@[k]) by {
                assert(is_slot(old(self)@[k]));
            }
            assert forall|k: int, j: int| 0 <= k < 64 && 0 <= j < 64 && k != j implies are_apart(
                #[trigger] self@[k],
                #[trigger] self@[j],
            ) by {
                assert(are_apart(old(self)@[k], old(self)@[j]));
            }
        }
        mappings
    }

    /// Whether a page of a Domain is a mapped grant.
    pub fn target_page_is_mapped(&self, target: DomainId, target_page: u64) -> (r: bool)
        requires
            self.wf(),
        ensures
            r == (target_page + 0x1000 > u64::MAX || is_mapped(
                self@,
                target,
                target_page as int,
                1,
            )),
    {
        self.target_range_is_mapped(target, target_page, 1)
    }

    /// Whether any page of a range of a Domain is a mapped grant. A range that
    /// wraps around counts as mapped.
    pub fn target_range_is_mapped(
        &self,
        target: DomainId,
        target_page: u64,
        page_count: u32,
    ) -> (r: bool)
        requires
            self.wf(),
        ensures
            r == (target_page + 0x1000 * page_count > u64::MAX || is_mapped(
                self@,
                target,
                target_page as int,
                page_count as int,
            )),
    {
        let length: u64 = page_count as u64 * 0x1000;
        if target_page > u64::MAX - length {
            return true;
        }
        let end: u64 = target_page + length;
        let mut i: usize = 0;
        while i < 64
            invariant
                self.wf(),
                i <= 64,
                end == target_page + 0x1000 * page_count,
                forall|j: int|
                    0 <= j < i ==> !has_mapping(
                        #[trigger] self@[j],
                        target,
                        target_page as int,
                        page_count as int,
                    ),
            decreases 64 - i,
        {
            assert(is_slot(self@[i as int]));
            if let Some(grant) = self.grants[i].grant {
                if grant.target == target {
                    if let Some(start) = grant.target_page {
                        let mapped_end: u64 = start + grant.page_count as u64 * 0x1000;
                        if target_page < mapped_end && start < end {
                            assert(has_mapping(
                                self@[i as int],
                                target,
                                target_page as int,
                                page_count as int,
                            ));
                            return true;
                        }
                    }
                }
            }
            i += 1;
        }
        false
    }
}

impl Default for GrantTable {
    fn default() -> (r: Self)
        ensures
            r.wf(),
            forall|i: int|
                0 <= i < 64 ==> #[trigger] r@[i] == (GrantSlot { generation: 0, grant: None }),
    {
        GrantTable::new()
    }
}

/// What creating a grant gives, and the table afterwards.
pub open spec fn created(
    before: Seq<GrantSlot>,
    owner: DomainId,
    target: DomainId,
    host_page: u64,
    page_count: u32,
    writable: bool,
    r: Result<GrantRef, GrantError>,
    after: Seq<GrantSlot>,
) -> bool {
    let i = free_slot(before, 0);
    if owner == target {
        r == Err::<GrantRef, GrantError>(GrantError::InvalidTarget) && after == before
    } else if !is_grantable(host_page, page_count) {
        r == Err::<GrantRef, GrantError>(GrantError::InvalidPage) && after == before
    } else if i >= 64 {
        r == Err::<GrantRef, GrantError>(GrantError::TableFull) && after == before
    } else {
        let generation = next_generation(before[i].generation);
        let grant = Grant { owner, target, host_page, page_count, writable, target_page: None };
        &&& r matches Ok(reference) && reference.wf() && reference.number() == reference_number(
            i,
            generation,
        )
        &&& after == before.update(i, GrantSlot { generation, grant: Some(grant) })
    }
}

/// A reference that was just created names the grant.
pub proof fn law_created_grant_is_named(
    before: Seq<GrantSlot>,
    owner: DomainId,
    target: DomainId,
    host_page: u64,
    page_count: u32,
    writable: bool,
    reference: GrantRef,
    after: Seq<GrantSlot>,
)
    requires
        is_table(before),
        created(
            before,
            owner,
            target,
            host_page,
            page_count,
            writable,
            Ok(reference),
            after,
        ),
    ensures
        named(after, reference) == Some(
            Grant { owner, target, host_page, page_count, writable, target_page: None },
        ),
{
    lemma_free_slot(before, 0);
    let i = free_slot(before, 0);
    assert(is_slot(before[i]));
}

/// Unmapping a grant gives back the mapping and the table as it was.
pub proof fn law_unmap_undoes_map(
    s: Seq<GrantSlot>,
    target: DomainId,
    reference: GrantRef,
    target_page: u64,
)
    requires
        is_table(s),
        reference.wf(),
        mapped(s, target, reference, target_page) is Ok,
    ensures
        ({
            let after = with_grant(
                s,
                reference.slot(),
                Some(moved(named(s, reference)->0, Some(target_page))),
            );
            &&& unmapped(after, target, reference) == mapped(s, target, reference, target_page)
            &&& with_grant(
                after,
                reference.slot(),
                Some(moved(named(after, reference)->0, None)),
            ) == s
        }),
{
    let i = reference.slot();
    let grant = named(s, reference)->0;
    let after = with_grant(s, i, Some(moved(grant, Some(target_page))));
    let last = with_grant(after, i, Some(moved(named(after, reference)->0, None)));
    assert(last[i] == s[i]);
    assert(last =~= s);
}

/// A reference to a grant that was revoked names nothing, not even once its slot
/// holds another grant.
pub proof fn law_revoked_reference_is_unknown(
    s: Seq<GrantSlot>,
    owner: DomainId,
    reference: GrantRef,
    new_owner: DomainId,
    target: DomainId,
    host_page: u64,
    page_count: u32,
    writable: bool,
    r: Result<GrantRef, GrantError>,
    after: Seq<GrantSlot>,
)
    requires
        is_table(s),
        reference.wf(),
        revoked(s, owner, reference) is Ok,
        created(
            with_grant(s, reference.slot(), None),
            new_owner,
            target,
            host_page,
            page_count,
            writable,
            r,
            after,
        ),
    ensures
        named(with_grant(s, reference.slot(), None), reference) is None,
        named(after, reference) is None,
        r matches Ok(new) ==> new.number() != reference.number(),
{
    let emptied = with_grant(s, reference.slot(), None);
    lemma_free_slot(emptied, 0);
    assert(is_slot(s[reference.slot()]));
}

/// Once a crashed Domain's grants have ended, it is a party to none.
pub proof fn law_crashed_domain_is_forgotten(s: Seq<GrantSlot>, domain: DomainId, i: int)
    requires
        is_table(s),
        0 <= i < 64,
    ensures
        !is_party(
            s.map_values(|slot: GrantSlot| swept(slot, domain, true))[i],
            domain,
        ),
{
}

/// Once a stopped Domain's grants have ended, it owns none and has none mapped;
/// grants between other Domains are as they were.
pub proof fn law_stopped_domain_holds_nothing(s: Seq<GrantSlot>, domain: DomainId, i: int)
    requires
        is_table(s),
        0 <= i < 64,
    ensures
        ({
            let after = s.map_values(|slot: GrantSlot| swept(slot, domain, false))[i];
            &&& after.grant matches Some(grant) ==> grant.owner != domain && (grant.target == domain
                ==> grant.target_page is None)
            &&& !is_party(s[i], domain) ==> after == s[i]
        }),
{
}

/// No page of a Domain is ever mapped by two grants.
pub proof fn law_mapped_ranges_never_overlap(
    s: Seq<GrantSlot>,
    i: int,
    j: int,
    a: Grant,
    b: Grant,
    first: u64,
    second: u64,
)
    requires
        is_table(s),
        0 <= i < 64,
        0 <= j < 64,
        i != j,
        s[i].grant == Some(a),
        s[j].grant == Some(b),
        a.target == b.target,
        a.target_page == Some(first),
        b.target_page == Some(second),
    ensures
        first + 0x1000 * a.page_count <= second || second + 0x1000 * b.page_count <= first,
{
    assert(are_apart(s[i], s[j]));
}

/// How many slots from `from` up to `to` hold grants for a target.
pub open spec fn target_count(s: Seq<GrantSlot>, target: DomainId, from: int, to: int) -> int
    decreases to - from,
{
    if from >= to {
        0
    } else if is_target(s[from], target) {
        1 + target_count(s, target, from + 1, to)
    } else {
        target_count(s, target, from + 1, to)
    }
}

proof fn lemma_target_count(s: Seq<GrantSlot>, target: DomainId, from: int, to: int)
    ensures
        target_count(s, target, from, to) >= 0,
    decreases to - from,
{
    if from < to {
        lemma_target_count(s, target, from + 1, to);
    }
}

proof fn lemma_target_slot(s: Seq<GrantSlot>, target: DomainId, ordinal: int, from: int)
    requires
        0 <= from <= s.len(),
        0 <= ordinal,
    ensures
        match target_slot(s, target, ordinal, from) {
            Some(i) => {
                &&& from <= i < s.len()
                &&& is_target(s[i], target)
                &&& target_count(s, target, from, i) == ordinal
            },
            None => ordinal >= target_count(s, target, from, s.len() as int),
        },
    decreases s.len() - from,
{
    if from < s.len() {
        if !is_target(s[from], target) {
            lemma_target_slot(s, target, ordinal, from + 1);
        } else if ordinal > 0 {
            lemma_target_slot(s, target, ordinal - 1, from + 1);
        }
    }
}

proof fn lemma_slot_is_listed(s: Seq<GrantSlot>, target: DomainId, from: int, i: int)
    requires
        0 <= from <= i < s.len(),
        is_target(s[i], target),
    ensures
        target_slot(s, target, target_count(s, target, from, i), from) == Some(i),
        target_count(s, target, from, i) < target_count(s, target, from, s.len() as int),
    decreases i - from,
{
    lemma_target_count(s, target, from + 1, i);
    lemma_target_count(s, target, from + 1, s.len() as int);
    if from < i {
        lemma_slot_is_listed(s, target, from + 1, i);
    }
}

/// Asking for one grant after the other lists each grant of the target exactly once, in
/// the order of the slots: there are as many answers as grants, every answer is a grant
/// of the target, and the grant in slot `i` is the answer to one question only.
pub proof fn law_query_lists_each_grant_once(s: Seq<GrantSlot>, target: DomainId, i: int)
    requires
        0 <= i < s.len(),
    ensures
        forall|ordinal: int|
            0 <= ordinal ==> (#[trigger] target_slot(s, target, ordinal, 0) is Some <==> ordinal
                < target_count(s, target, 0, s.len() as int)),
        is_target(s[i], target) ==> 0 <= target_count(s, target, 0, i) && target_slot(
            s,
            target,
            target_count(s, target, 0, i),
            0,
        ) == Some(i),
        forall|ordinal: int|
            0 <= ordinal && #[trigger] target_slot(s, target, ordinal, 0) == Some(i)
                ==> is_target(s[i], target) && ordinal == target_count(s, target, 0, i),
{
    assert forall|ordinal: int| 0 <= ordinal implies (#[trigger] target_slot(
        s,
        target,
        ordinal,
        0,
    ) is Some <==> ordinal < target_count(s, target, 0, s.len() as int)) by {
        lemma_target_slot(s, target, ordinal, 0);
        if let Some(j) = target_slot(s, target, ordinal, 0) {
            lemma_slot_is_listed(s, target, 0, j);
        }
    }
    assert forall|ordinal: int|
        0 <= ordinal && #[trigger] target_slot(s, target, ordinal, 0) == Some(i) implies is_target(
        s[i],
        target,
    ) && ordinal == target_count(s, target, 0, i) by {
        lemma_target_slot(s, target, ordinal, 0);
    }
    if is_target(s[i], target) {
        lemma_target_count(s, target, 0, i);
        lemma_slot_is_listed(s, target, 0, i);
    }
}

/// A number names one reference.
pub proof fn law_number_names_one_reference(a: GrantRef, b: GrantRef)
    requires
        a.number() == b.number(),
    ensures
        a == b,
{
}

/// A mapping shows the target the pages that the owner granted, and no others, where the
/// target asked for them, writable exactly where the owner said so.
pub proof fn law_mapping_shows_what_was_granted(grant: Grant, target_page: u64)
    ensures
        ({
            let mapping = mapping_of(grant, target_page);
            &&& mapping.owner == grant.owner
            &&& mapping.target == grant.target
            &&& mapping.host_page == grant.host_page
            &&& mapping.target_page == target_page
            &&& mapping.page_count == grant.page_count
            &&& mapping.writable == grant.writable
        }),
        moved(grant, Some(target_page)).target_page == Some(target_page),
        moved(grant, None).target_page is None,
        moved(grant, Some(target_page)).host_page == grant.host_page && moved(
            grant,
            Some(target_page),
        ).writable == grant.writable && moved(grant, Some(target_page)).owner == grant.owner
            && moved(grant, Some(target_page)).target == grant.target && moved(
            grant,
            Some(target_page),
        ).page_count == grant.page_count,
{
}

/// Who may do what with a grant that a reference names: its target maps it once, at a page
/// boundary where nothing else is mapped, and unmaps it while it is mapped; its owner
/// revokes it while it is not. Anybody else is denied, and a reference that names no grant
/// is unknown.
pub proof fn law_parties_use_a_grant(
    s: Seq<GrantSlot>,
    domain: DomainId,
    reference: GrantRef,
    page: u64,
)
    ensures
        ({
            let slot = s[reference.number() % 0x100 - 1];
            let known = slot.grant is Some && slot.generation == reference.number() / 0x100;
            let grant = slot.grant->0;
            &&& !known ==> unmapped(s, domain, reference) == Err::<GrantMapping, GrantError>(
                GrantError::UnknownGrant,
            ) && revoked(s, domain, reference) == Err::<(), GrantError>(GrantError::UnknownGrant)
            &&& !known && page % 0x1000 == 0 ==> mapped(s, domain, reference, page) == Err::<
                GrantMapping,
                GrantError,
            >(GrantError::UnknownGrant)
            &&& page % 0x1000 != 0 ==> mapped(s, domain, reference, page) == Err::<
                GrantMapping,
                GrantError,
            >(GrantError::InvalidPage)
            &&& known && grant.target != domain ==> unmapped(s, domain, reference) == Err::<
                GrantMapping,
                GrantError,
            >(GrantError::AccessDenied) && (page % 0x1000 == 0 ==> mapped(
                s,
                domain,
                reference,
                page,
            ) == Err::<GrantMapping, GrantError>(GrantError::AccessDenied))
            &&& known && grant.owner != domain ==> revoked(s, domain, reference) == Err::<
                (),
                GrantError,
            >(GrantError::AccessDenied)
            &&& known && grant.owner == domain ==> revoked(s, domain, reference) == (if
                grant.target_page is Some {
                Err::<(), GrantError>(GrantError::Busy)
            } else {
                Ok(())
            })
            &&& known && grant.target == domain ==> unmapped(s, domain, reference) == (match
                grant.target_page {
                Some(at) => Ok::<GrantMapping, GrantError>(mapping_of(grant, at)),
                None => Err(GrantError::NotMapped),
            })
            &&& known && grant.target == domain && page % 0x1000 == 0 ==> (mapped(
                s,
                domain,
                reference,
                page,
            ) is Ok <==> grant.target_page is None && page + 0x1000 * grant.page_count <= u64::MAX
                && !is_mapped(s, domain, page as int, grant.page_count as int))
            &&& mapped(s, domain, reference, page) matches Ok(mapping) ==> mapping == mapping_of(
                grant,
                page,
            )
        }),
{
}

/// Two ranges of pages meet exactly where they share a page.
pub proof fn law_ranges_meet_where_they_share_a_page(grant: Grant, start: int, pages: int)
    requires
        grant.target_page is Some,
        grant.target_page->0 % 0x1000 == 0,
        start % 0x1000 == 0,
        pages > 0,
        grant.page_count > 0,
    ensures
        meets(grant, start, pages) <==> exists|p: int|
            #![trigger p % 0x1000]
            p % 0x1000 == 0 && start <= p < start + 0x1000 * pages && grant.target_page->0 <= p
                < grant.target_page->0 + 0x1000 * grant.page_count,
{
    let page = grant.target_page->0 as int;
    if meets(grant, start, pages) {
        let p = if page >= start {
            page
        } else {
            start
        };
        assert(p % 0x1000 == 0);
    }
}

/// A slot that is used again gets another generation, which is never zero and fits in 24
/// bits, so that the reference to what it held before names nothing any more.
pub proof fn law_generations_move_on(generation: u32)
    requires
        generation < 0x100_0000,
    ensures
        0 < next_generation(generation) < 0x100_0000,
        next_generation(generation) != generation,
        generation < 0xff_ffff ==> next_generation(generation) == generation + 1,
        next_generation(0xff_ffff) == 1,
{
}

/// The number of a reference is its slot, counted from one, and the generation above: it
/// names the slot and the generation that it was made from.
pub proof fn law_reference_is_slot_and_generation(reference: GrantRef, slot: int, generation: u32)
    requires
        0 <= slot < 64,
        0 < generation < 0x100_0000,
        reference.number() == reference_number(slot, generation),
    ensures
        reference.slot() == slot,
        reference.spec_generation() == generation,
        reference.wf(),
        forall|value: u32|
            #[trigger] is_reference(value) <==> 1 <= value % 0x100 <= 64 && value >= 0x100,
{
}

/// Which grants end with a Domain: all that it gave, those that it had mapped, and, where it
/// crashed, also those that it could have mapped. A slot whose grant ends is empty and keeps
/// its generation; no other slot changes.
pub proof fn law_grants_end_with_their_parties(slot: GrantSlot, domain: DomainId, crashed: bool)
    ensures
        slot.grant is None ==> !ends(slot, domain, crashed),
        slot.grant matches Some(grant) ==> (ends(slot, domain, crashed) <==> grant.owner == domain
            || grant.target == domain && (grant.target_page is Some || crashed)),
        ends(slot, domain, crashed) ==> swept(slot, domain, crashed).grant is None && swept(
            slot,
            domain,
            crashed,
        ).generation == slot.generation,
        !ends(slot, domain, crashed) ==> swept(slot, domain, crashed) == slot,
{
}

/// Every mapping that ends with a Domain is listed, so that it can be taken back, and
/// nothing else is.
pub proof fn law_ended_mappings_are_listed(
    s: Seq<GrantSlot>,
    domain: DomainId,
    crashed: bool,
    n: int,
    mapping: GrantMapping,
)
    requires
        0 <= n <= s.len(),
    ensures
        ended(s, domain, crashed, n).contains(mapping) <==> exists|i: int|
            0 <= i < n && ends_mapping(#[trigger] s[i], domain, crashed, mapping),
    decreases n,
{
    let list = ended(s, domain, crashed, n);
    if n > 0 {
        law_ended_mappings_are_listed(s, domain, crashed, n - 1, mapping);
        let before = ended(s, domain, crashed, n - 1);
        if ends_mapping(s[n - 1], domain, crashed, mapping) {
            assert(list == before.push(mapping));
            assert(list[before.len() as int] == mapping);
        } else if before.contains(mapping) {
            let k = choose|k: int| 0 <= k < before.len() && before[k] == mapping;
            assert(list[k] == mapping);
        }
        if list.contains(mapping) && !ends_mapping(s[n - 1], domain, crashed, mapping) {
            let k = choose|k: int| 0 <= k < list.len() && list[k] == mapping;
            assert(before.contains(mapping)) by {
                assert(k < before.len() ==> before[k] == mapping);
            }
        }
    }
}

/// Whether a slot holds a mapped grant that ends with the Domain, mapped like this.
pub open spec fn ends_mapping(
    slot: GrantSlot,
    domain: DomainId,
    crashed: bool,
    mapping: GrantMapping,
) -> bool {
    &&& slot.grant is Some && slot.grant->0.target_page is Some
    &&& slot.grant->0.owner == domain || slot.grant->0.target == domain
    &&& mapping.owner == slot.grant->0.owner && mapping.target == slot.grant->0.target
    &&& mapping.host_page == slot.grant->0.host_page && mapping.page_count
        == slot.grant->0.page_count && mapping.writable == slot.grant->0.writable
    &&& mapping.target_page == slot.grant->0.target_page->0
}

/// A grant is created exactly between two Domains, for whole pages in the address space
/// other than the first, where one of the 64 slots is free; it is then what was asked for,
/// mapped nowhere, and no other slot changes.
pub proof fn law_grant_is_created_as_asked(
    before: Seq<GrantSlot>,
    owner: DomainId,
    target: DomainId,
    host_page: u64,
    page_count: u32,
    writable: bool,
    r: Result<GrantRef, GrantError>,
    after: Seq<GrantSlot>,
)
    requires
        is_table(before),
        created(before, owner, target, host_page, page_count, writable, r, after),
    ensures
        r is Ok <==> owner != target && host_page != 0 && host_page % 0x1000 == 0 && page_count > 0
            && host_page + 0x1000 * page_count <= u64::MAX && exists|i: int|
            0 <= i < 64 && (#[trigger] before[i]).grant is None,
        r is Err ==> after == before,
        r matches Ok(reference) ==> {
            let i = reference.slot();
            &&& 0 <= i < 64 && before[i].grant is None
            &&& after[i].generation == reference.spec_generation()
            &&& after[i].grant matches Some(grant) && grant.owner == owner && grant.target == target
                && grant.host_page == host_page && grant.page_count == page_count && grant.writable
                == writable && grant.target_page is None
            &&& forall|j: int| 0 <= j < 64 && j != i ==> #[trigger] after[j] == before[j]
        },
{
    lemma_free_slot(before, 0);
    lemma_taken_slots(before, 0);
    let i = free_slot(before, 0);
    if i < 64 {
        assert(is_slot(before[i]));
        assert(before[i].grant is None);
    }
}

proof fn lemma_taken_slots(s: Seq<GrantSlot>, i: int)
    requires
        0 <= i <= s.len(),
    ensures
        forall|k: int| i <= k < free_slot(s, i) ==> (#[trigger] s[k]).grant is Some,
    decreases s.len() - i,
{
    if i < s.len() && s[i].grant is Some {
        lemma_taken_slots(s, i + 1);
    }
}

} // verus!
