//! What one Domain's translation has to do with other memory: nothing.
//!
//! Every change of a Domain's tables stays in the regions that were set aside for
//! them, and nothing outside those regions has a part in what the Domain reaches.

use vstd::prelude::*;

use super::{
    device_tables, is_mappable_range, is_ram_page, is_separate, leaf, leaf_slot, lemma_level2_entry,
    lemma_level2_index, lemma_level3_write, lemma_map_leaves, lemma_map_leaves_empty,
    lemma_map_leaves_unfold, lemma_map_step, lemma_slot_mapped, lemma_tables,
    lemma_unmap_leaves_unfold, lemma_unmap_step, lemma_with_leaf_table, level2_slot, level3_slot,
    map_leaves, map_range, map_step, ram_slot, reaches, same_leaves, slot, step_size, tables_wf,
    unmap_leaves, unmap_step, with_leaf_table, with_level2_linked, NestedPageResources,
    ENTRY_ADDRESS, NESTED_LARGE_PAGE, PHYSICAL_LIMIT,
};
use crate::BackendKind;

verus! {

/// The address lies in a part of the tables that links to others or counts them.
pub open spec fn is_structure(r: NestedPageResources, a: int) -> bool {
    ||| r.level3 <= a < r.level3 + 0x1000 * r.level3_pages
    ||| r.level2 <= a < r.level2 + 0x1000 * r.level2_pages
    ||| r.device_level1 <= a < r.device_level1 + 0x1000 * r.device_level1_pages
    ||| r.device_state <= a < r.device_state + 0x1000
}

/// The address lies in the leaf tables of the Domain's RAM.
pub open spec fn is_ram_leaf(r: NestedPageResources, a: int) -> bool {
    r.level1 <= a < r.level1 + 0x1000 * r.level1_pages
}

/// The same words exist, and the linking parts of the tables hold the same.
pub open spec fn same_structure(
    r: NestedPageResources,
    m: Map<int, u64>,
    n: Map<int, u64>,
) -> bool {
    &&& n.dom() == m.dom()
    &&& forall|a: int| is_structure(r, a) ==> #[trigger] n[a] == m[a]
}

/// All parts of the tables hold the same.
pub open spec fn same_tables(r: NestedPageResources, m: Map<int, u64>, n: Map<int, u64>) -> bool {
    &&& same_structure(r, m, n)
    &&& forall|a: int| is_ram_leaf(r, a) ==> #[trigger] n[a] == m[a]
}

/// The same words exist, and those outside the regions of the tables hold the same.
pub open spec fn changes_only_tables(
    r: NestedPageResources,
    m: Map<int, u64>,
    n: Map<int, u64>,
) -> bool {
    &&& n.dom() == m.dom()
    &&& forall|a: int|
        !is_structure(r, a) && !is_ram_leaf(r, a) ==> #[trigger] n[a] == m[a]
}

/// The tables of two Domains share no word, and neither lies in the other's memory.
pub open spec fn are_apart(r: NestedPageResources, s: NestedPageResources) -> bool {
    forall|a: int| !(#[trigger] r.holds(a) && s.holds(a))
}

/// Only the linking parts decide the shape of the tables.
pub proof fn lemma_same_structure(
    b: BackendKind,
    r: NestedPageResources,
    m: Map<int, u64>,
    n: Map<int, u64>,
)
    requires
        tables_wf(b, r, m),
        same_structure(r, m, n),
    ensures
        tables_wf(b, r, n),
{
    reveal(tables_wf);
    assert(is_structure(r, r.device_state as int));
    assert(device_tables(r, n) == device_tables(r, m));
    assert forall|i: int| 0 <= i < r.level2_pages implies #[trigger] n[slot(r.level3 as int, i)]
        == m[slot(r.level3 as int, i)] by {
        assert(is_structure(r, slot(r.level3 as int, i)));
    }
    assert forall|i: int| 0 <= i < 512 * r.level2_pages implies #[trigger] n[slot(
        r.level2 as int,
        i,
    )] == m[slot(r.level2 as int, i)] by {
        assert(is_structure(r, slot(r.level2 as int, i)));
    }
    assert forall|i: int| 0 <= i < 512 * r.device_level1_pages implies #[trigger] n[slot(
        r.device_level1 as int,
        i,
    )] == m[slot(r.device_level1 as int, i)] by {
        assert(is_structure(r, slot(r.device_level1 as int, i)));
    }
}

/// Nothing outside the tables decides what a Domain reaches.
pub proof fn lemma_same_tables(
    b: BackendKind,
    r: NestedPageResources,
    m: Map<int, u64>,
    n: Map<int, u64>,
)
    requires
        tables_wf(b, r, m),
        same_tables(r, m, n),
    ensures
        tables_wf(b, r, n),
        same_leaves(r, m, n),
{
    lemma_same_structure(b, r, m, n);
    assert forall|g: int| 0 <= g && reaches(r, g) implies #[trigger] leaf(r, n, g) == leaf(
        r,
        m,
        g,
    ) by {
        reveal(leaf);
        lemma_level2_word(b, r, m, g);
        lemma_leaf_word(b, r, m, g);
        let at = level2_slot(r, g);
        assert(is_structure(r, at));
        assert(n[at] == m[at]);
        let e = m[at];
        if e & NESTED_LARGE_PAGE == 0 && e & ENTRY_ADDRESS != 0 {
            let word = leaf_slot(e, g);
            assert(is_structure(r, word) || is_ram_leaf(r, word));
            assert(n[word] == m[word]);
        }
    }
}

/// The level-3 and level-2 entries of an address lie in the tables.
proof fn lemma_level2_word(b: BackendKind, r: NestedPageResources, m: Map<int, u64>, guest: int)
    requires
        tables_wf(b, r, m),
        0 <= guest,
        reaches(r, guest),
    ensures
        is_structure(r, level2_slot(r, guest)),
        is_structure(r, level3_slot(r, guest)),
        is_structure(r, r.device_state as int),
{
    reveal(tables_wf);
    reveal(reaches);
    lemma_level2_index(guest, r.level2_pages as int);
}

/// A leaf table that a level-2 entry points to lies in the tables.
proof fn lemma_leaf_word(b: BackendKind, r: NestedPageResources, m: Map<int, u64>, guest: int)
    requires
        tables_wf(b, r, m),
        0 <= guest,
        reaches(r, guest),
    ensures
        ({
            let e = m[level2_slot(r, guest)];
            e & NESTED_LARGE_PAGE == 0 && e & ENTRY_ADDRESS != 0 ==> is_structure(
                r,
                leaf_slot(e, guest),
            ) || is_ram_leaf(r, leaf_slot(e, guest))
        }),
{
    lemma_level2_entry(b, r, m, guest);
    let e = m[level2_slot(r, guest)];
    let t = (e & ENTRY_ADDRESS) as int;
    let index = guest / 0x1000 % 512;
    assert(0 <= index < 512);
    if e & NESTED_LARGE_PAGE == 0 && e & ENTRY_ADDRESS != 0 {
        assert(leaf_slot(e, guest) == t + 8 * index);
        assert(device_tables(r, m) <= r.device_level1_pages) by {
            reveal(tables_wf);
        }
    }
}

/// Mapping one leaf changes only the tables.
proof fn lemma_map_step_stays(
    b: BackendKind,
    r: NestedPageResources,
    m: Map<int, u64>,
    guest: int,
    host: int,
    len: int,
)
    requires
        tables_wf(b, r, m),
        0 <= guest,
        guest % 0x1000 == 0,
        0 < host < PHYSICAL_LIMIT,
        host % 0x1000 == 0,
    ensures
        changes_only_tables(r, m, map_step(b, r, m, guest, host, len).1),
{
    reveal(map_step);
    lemma_map_step(b, r, m, guest, host, len);
    if reaches(r, guest) {
        lemma_level2_word(b, r, m, guest);
        lemma_level3_write(b, r, m, guest);
        let linked = with_level2_linked(b, r, m, guest);
        lemma_with_leaf_table(b, r, m, guest);
        let (ready, tables) = with_leaf_table(b, r, m, guest);
        lemma_leaf_word(b, r, tables, guest);
        lemma_level2_entry(b, r, tables, guest);
    }
}

/// Removing one leaf changes only the tables.
proof fn lemma_unmap_step_stays(
    b: BackendKind,
    r: NestedPageResources,
    m: Map<int, u64>,
    guest: int,
)
    requires
        tables_wf(b, r, m),
        0 <= guest,
        guest % 0x1000 == 0,
    ensures
        changes_only_tables(r, m, unmap_step(b, r, m, guest).1),
{
    lemma_unmap_step(b, r, m, guest);
    if reaches(r, guest) {
        lemma_level2_word(b, r, m, guest);
        lemma_level3_write(b, r, m, guest);
        let linked = with_level2_linked(b, r, m, guest);
        lemma_leaf_word(b, r, linked, guest);
    }
}

proof fn lemma_map_leaves_stay(
    b: BackendKind,
    r: NestedPageResources,
    m: Map<int, u64>,
    guest: int,
    host: int,
    len: int,
)
    requires
        tables_wf(b, r, m),
        0 <= guest,
        guest % 0x1000 == 0,
        0 < host,
        host % 0x1000 == 0,
        0 <= len,
        len % 0x1000 == 0,
        host + len <= PHYSICAL_LIMIT,
    ensures
        changes_only_tables(r, m, map_leaves(b, r, m, guest, host, len).1),
    decreases len,
{
    lemma_map_leaves_empty(b, r, m, guest, host);
    if len > 0 {
        lemma_map_leaves_unfold(b, r, m, guest, host, len);
        lemma_map_step(b, r, m, guest, host, len);
        lemma_map_step_stays(b, r, m, guest, host, len);
        let (ok, next) = map_step(b, r, m, guest, host, len);
        let size = step_size(guest, host, len);
        if ok {
            lemma_map_leaves_stay(b, r, next, guest + size, host + size, len - size);
        }
    }
}

proof fn lemma_unmap_leaves_stay(
    b: BackendKind,
    r: NestedPageResources,
    m: Map<int, u64>,
    guest: int,
    len: int,
)
    requires
        tables_wf(b, r, m),
        0 <= guest,
        guest % 0x1000 == 0,
    ensures
        changes_only_tables(r, m, unmap_leaves(b, r, m, guest, len).1),
    decreases
            (if len > 0 {
                len
            } else {
                0
            }),
{
    lemma_unmap_leaves_unfold(b, r, m, guest, len);
    if len > 0 {
        lemma_unmap_step(b, r, m, guest);
        lemma_unmap_step_stays(b, r, m, guest);
        let (size, next) = unmap_step(b, r, m, guest);
        if size > 0 {
            lemma_unmap_leaves_stay(b, r, next, guest + size, len - size);
        }
    }
}

/// Mapping a device range changes only the Domain's tables.
proof fn lemma_map_range_stays(
    b: BackendKind,
    r: NestedPageResources,
    m: Map<int, u64>,
    guest_start: u64,
    host_start: u64,
    len: u64,
)
    requires
        tables_wf(b, r, m),
        host_start + len <= PHYSICAL_LIMIT,
    ensures
        changes_only_tables(r, m, map_range(b, r, m, guest_start, host_start, len).1),
{
    if is_mappable_range(r, guest_start, host_start, len) {
        let guest = guest_start as int;
        let host = host_start as int;
        lemma_map_leaves_stay(b, r, m, guest, host, len as int);
        lemma_map_leaves(b, r, m, guest, host, len as int);
        let (ok, next, left) = map_leaves(b, r, m, guest, host, len as int);
        if !ok {
            lemma_unmap_leaves_stay(b, r, next, guest, len - left);
        }
    }
}

/// Tables that share no word with those that change keep all that they hold.
proof fn lemma_other_tables(
    r: NestedPageResources,
    s: NestedPageResources,
    m: Map<int, u64>,
    n: Map<int, u64>,
)
    requires
        are_apart(r, s),
        changes_only_tables(r, m, n),
    ensures
        same_tables(s, m, n),
{
    assert forall|a: int| is_structure(s, a) || is_ram_leaf(s, a) implies #[trigger] n[a] == m[a] by {
        assert(s.holds(a));
        assert(!r.holds(a));
    }
}

/// Whatever devices one Domain gets mapped, every other Domain reaches exactly what
/// it reached before.
pub proof fn law_device_mappings_are_private(
    b: BackendKind,
    r: NestedPageResources,
    other_backend: BackendKind,
    other: NestedPageResources,
    m: Map<int, u64>,
    guest_start: u64,
    host_start: u64,
    len: u64,
)
    requires
        tables_wf(b, r, m),
        tables_wf(other_backend, other, m),
        are_apart(r, other),
        host_start + len <= PHYSICAL_LIMIT,
    ensures
        ({
            let n = map_range(b, r, m, guest_start, host_start, len).1;
            tables_wf(other_backend, other, n) && same_leaves(other, m, n)
        }),
{
    let n = map_range(b, r, m, guest_start, host_start, len).1;
    lemma_map_range_stays(b, r, m, guest_start, host_start, len);
    lemma_other_tables(r, other, m, n);
    lemma_same_tables(other_backend, other, m, n);
}

/// Whatever devices one Domain gives back, every other Domain reaches exactly what
/// it reached before.
pub proof fn law_device_removals_are_private(
    b: BackendKind,
    r: NestedPageResources,
    other_backend: BackendKind,
    other: NestedPageResources,
    m: Map<int, u64>,
    guest_start: u64,
    len: u64,
)
    requires
        tables_wf(b, r, m),
        tables_wf(other_backend, other, m),
        are_apart(r, other),
        guest_start % 0x1000 == 0,
    ensures
        ({
            let n = unmap_leaves(b, r, m, guest_start as int, len as int).1;
            tables_wf(other_backend, other, n) && same_leaves(other, m, n)
        }),
{
    let n = unmap_leaves(b, r, m, guest_start as int, len as int).1;
    lemma_unmap_leaves_stay(b, r, m, guest_start as int, len as int);
    lemma_other_tables(r, other, m, n);
    lemma_same_tables(other_backend, other, m, n);
}

/// Sharing a page with a Domain, or giving it its own page back, keeps its tables
/// sound; every other Domain reaches what it reached before.
pub proof fn law_sharing_is_private(
    b: BackendKind,
    r: NestedPageResources,
    other_backend: BackendKind,
    other: NestedPageResources,
    m: Map<int, u64>,
    guest_page: u64,
    word: u64,
)
    requires
        tables_wf(b, r, m),
        tables_wf(other_backend, other, m),
        are_apart(r, other),
        is_ram_page(r, guest_page),
    ensures
        ({
            let n = m.insert(ram_slot(r, guest_page), word);
            &&& tables_wf(b, r, n)
            &&& tables_wf(other_backend, other, n)
            &&& same_leaves(other, m, n)
        }),
{
    let at = ram_slot(r, guest_page);
    let n = m.insert(at, word);
    lemma_tables(b, r, m);
    let index = guest_page as int / 0x1000;
    lemma_slot_mapped(m, r.level1 as int, 0x1000 * r.level1_pages, index);
    assert(is_ram_leaf(r, at));
    assert(n.dom() =~= m.dom());
    assert forall|a: int| is_structure(r, a) implies #[trigger] n[a] == m[a] by {
        reveal(is_separate);
    }
    lemma_same_structure(b, r, m, n);
    lemma_other_tables(r, other, m, n);
    lemma_same_tables(other_backend, other, m, n);
}

/// What a Domain writes to its own RAM, or what is loaded there, has no part in what
/// any Domain reaches.
pub proof fn law_memory_contents_do_not_translate(
    b: BackendKind,
    r: NestedPageResources,
    owner: NestedPageResources,
    m: Map<int, u64>,
    n: Map<int, u64>,
)
    requires
        tables_wf(b, r, m),
        r == owner || are_apart(owner, r),
        n.dom() == m.dom(),
        forall|a: int|
            !(owner.guest_base <= a < owner.guest_base + 0x1000 * owner.guest_pages)
                ==> #[trigger] n[a] == m[a],
    ensures
        tables_wf(b, r, n),
        same_leaves(r, m, n),
{
    lemma_tables(b, r, m);
    assert forall|a: int| is_structure(r, a) || is_ram_leaf(r, a) implies #[trigger] n[a] == m[a] by {
        reveal(is_separate);
        if r != owner {
            assert(r.holds(a));
            assert(!owner.holds(a));
        }
    }
    lemma_same_tables(b, r, m, n);
}

} // verus!
