//! What the hardware finds when it walks the tables: the leaves that they hold.
//!
//! The operations on a table speak of leaves, which they find by their place. The
//! hardware starts at the root and follows four levels of links. Both come to the same,
//! and every operation keeps it so.

use vstd::prelude::*;

use super::{
    device_flags, device_tables, entry, is_initialized, is_mappable_range, is_ram_page,
    is_separate, large_device_flags, leaf, leaf_slot, lemma_flags, lemma_indices,
    lemma_initialized_tables, lemma_leaf_at, lemma_level2_entry, lemma_level2_index,
    lemma_level3_write, lemma_link, lemma_map_leaves, lemma_map_leaves_empty,
    lemma_map_leaves_unfold, lemma_map_step, lemma_tables, lemma_unmap_leaves_unfold,
    lemma_unmap_step, lemma_with_leaf_table, level2_slot, level3_slot, link_flags, map_leaves,
    map_range, map_step, ram_flags, ram_slot, reaches, shared_flags, slot, step_size,
    tables_wf, unmap_leaves, unmap_step, walk, with_leaf_table, with_level2_linked,
    NestedPageResources, ENTRY_ADDRESS, GIGABYTE, LARGE_PAGE_SIZE, NESTED_LARGE_PAGE,
    PHYSICAL_LIMIT,
};
use crate::BackendKind;

verus! {

/// An entry is empty or present.
pub open spec fn is_entry(e: u64) -> bool {
    e == 0 || e & 1 == 1
}

/// The upper levels lead to every table of the second level that maps something, and to
/// nothing else, and every entry below is empty or present.
#[verifier::opaque]
pub open spec fn is_linked(b: BackendKind, r: NestedPageResources, m: Map<int, u64>) -> bool {
    &&& forall|i: int|
        0 <= i < 512 ==> #[trigger] m[slot(r.root as int, i)] == (if i < r.level3_pages {
            entry(r.level3 + 0x1000 * i, link_flags(b))
        } else {
            0
        })
    &&& forall|i: int|
        r.level2_pages <= i < 512 * r.level3_pages ==> #[trigger] m[slot(r.level3 as int, i)] == 0
    &&& forall|i: int|
        0 <= i < 512 * r.level2_pages && #[trigger] m[slot(r.level2 as int, i)] != 0 ==> m[slot(
            r.level3 as int,
            i / 512,
        )] != 0
    &&& forall|i: int|
        0 <= i < 512 * r.level2_pages ==> is_entry(#[trigger] m[slot(r.level2 as int, i)])
    &&& forall|i: int|
        0 <= i < 512 * r.level1_pages ==> is_entry(#[trigger] m[slot(r.level1 as int, i)])
    &&& forall|i: int|
        0 <= i < 512 * r.device_level1_pages ==> is_entry(
            #[trigger] m[slot(r.device_level1 as int, i)],
        )
}

/// A word that an operation may store.
spec fn may_hold(
    b: BackendKind,
    r: NestedPageResources,
    m: Map<int, u64>,
    a: int,
    e: u64,
) -> bool {
    ||| exists|i: int|
        0 <= i < r.level2_pages && a == #[trigger] slot(r.level3 as int, i) && e != 0
    ||| exists|i: int|
        0 <= i < 512 * r.level2_pages && a == #[trigger] slot(r.level2 as int, i) && is_entry(e)
            && m[slot(r.level3 as int, i / 512)] != 0
    ||| exists|i: int|
        0 <= i < 512 * r.level1_pages && a == #[trigger] slot(r.level1 as int, i) && is_entry(e)
    ||| exists|i: int|
        0 <= i < 512 * r.device_level1_pages && a == #[trigger] slot(r.device_level1 as int, i)
            && is_entry(e)
    ||| a == r.device_state
}

/// Storing such a word keeps the levels linked.
#[verifier::spinoff_prover]
proof fn lemma_store(b: BackendKind, r: NestedPageResources, m: Map<int, u64>, a: int, e: u64)
    requires
        r.is_valid(),
        is_separate(r),
        is_linked(b, r, m),
        may_hold(b, r, m, a, e),
    ensures
        is_linked(b, r, m.insert(a, e)),
{
    reveal(is_separate);
    reveal(is_linked);
    let n = m.insert(a, e);
    assert forall|i: int| 0 <= i < 512 implies #[trigger] n[slot(r.root as int, i)] == m[slot(
        r.root as int,
        i,
    )] by {}
    assert forall|i: int| r.level2_pages <= i < 512 * r.level3_pages implies #[trigger] n[slot(
        r.level3 as int,
        i,
    )] == m[slot(r.level3 as int, i)] by {}
    assert forall|i: int| 0 <= i < r.level2_pages && m[slot(r.level3 as int, i)] != 0 implies
        #[trigger] n[slot(r.level3 as int, i)] != 0 by {}
    assert forall|i: int| 0 <= i < 512 * r.level2_pages implies is_entry(
        #[trigger] n[slot(r.level2 as int, i)],
    ) && (n[slot(r.level2 as int, i)] != 0 ==> n[slot(r.level3 as int, i / 512)] != 0) by {
        assert(is_entry(m[slot(r.level2 as int, i)]));
        assert(0 <= i / 512 < r.level2_pages);
        if m[slot(r.level3 as int, i / 512)] != 0 {
            assert(n[slot(r.level3 as int, i / 512)] != 0);
        }
    }
    assert forall|i: int| 0 <= i < 512 * r.level1_pages implies is_entry(
        #[trigger] n[slot(r.level1 as int, i)],
    ) by {
        assert(is_entry(m[slot(r.level1 as int, i)]));
    }
    assert forall|i: int| 0 <= i < 512 * r.device_level1_pages implies is_entry(
        #[trigger] n[slot(r.device_level1 as int, i)],
    ) by {
        assert(is_entry(m[slot(r.device_level1 as int, i)]));
    }
}

/// The words of the leaf table that a level-2 entry leads to are entries.
proof fn lemma_leaf_entry(b: BackendKind, r: NestedPageResources, m: Map<int, u64>, guest: int)
    requires
        tables_wf(b, r, m),
        is_linked(b, r, m),
        0 <= guest,
        reaches(r, guest),
        m[level2_slot(r, guest)] != 0,
        m[level2_slot(r, guest)] & NESTED_LARGE_PAGE == 0,
    ensures
        is_entry(m[leaf_slot(m[level2_slot(r, guest)], guest)]),
        forall|e: u64|
            is_entry(e) ==> #[trigger] may_hold(
                b,
                r,
                m,
                leaf_slot(m[level2_slot(r, guest)], guest),
                e,
            ),
{
    reveal(is_linked);
    lemma_level2_entry(b, r, m, guest);
    let e = m[level2_slot(r, guest)];
    let t = (e & ENTRY_ADDRESS) as int;
    let index = guest / 0x1000 % 512;
    lemma_tables(b, r, m);
    if r.level1 <= t && t + 0x1000 <= r.level1 + 0x1000 * r.level1_pages {
        let i = (t - r.level1) / 8 + index;
        assert(leaf_slot(e, guest) == slot(r.level1 as int, i));
        assert(is_entry(m[slot(r.level1 as int, i)]));
    } else {
        let i = (t - r.device_level1) / 8 + index;
        assert(device_tables(r, m) <= r.device_level1_pages) by {
            reveal(tables_wf);
        }
        assert(leaf_slot(e, guest) == slot(r.device_level1 as int, i));
        assert(is_entry(m[slot(r.device_level1 as int, i)]));
    }
}

/// The hardware finds what the tables hold: the leaf that maps an address, and nothing
/// where there is none or where the tables do not reach.
#[verifier::spinoff_prover]
pub proof fn law_hardware_finds_the_leaves(
    b: BackendKind,
    r: NestedPageResources,
    m: Map<int, u64>,
    gpa: int,
)
    requires
        tables_wf(b, r, m),
        is_linked(b, r, m),
        0 <= gpa < 0x1_0000_0000_0000,
    ensures
        walk(m, r.root as int, gpa) == (if reaches(r, gpa) {
            leaf(r, m, gpa)
        } else {
            None
        }),
{
    reveal(reaches);
    lemma_flags(b);
    lemma_tables(b, r, m);
    lemma_indices(gpa);
    lemma_leaf_at(r, m, gpa);
    let i4 = gpa / 0x80_0000_0000 % 512;
    let i3 = gpa / (GIGABYTE as int) % 512;
    let i2 = gpa / (LARGE_PAGE_SIZE as int) % 512;
    let gigabyte = gpa / (GIGABYTE as int);
    let large = gpa / (LARGE_PAGE_SIZE as int);
    assert(gigabyte == 512 * i4 + i3);
    assert(large == 512 * gigabyte + i2);
    let e4 = m[slot(r.root as int, i4)];
    assert(e4 == (if i4 < r.level3_pages {
        entry(r.level3 + 0x1000 * i4, link_flags(b))
    } else {
        0
    })) by {
        reveal(is_linked);
    }
    if i4 < r.level3_pages {
        lemma_link(b, r.level3 + 0x1000 * i4);
        assert(slot((e4 & ENTRY_ADDRESS) as int, i3) == slot(r.level3 as int, gigabyte));
        let e3 = m[slot(r.level3 as int, gigabyte)];
        if gigabyte < r.level2_pages {
            lemma_level2_entry(b, r, m, gpa);
            assert(e3 == 0 || e3 == entry(r.level2 + 0x1000 * gigabyte, link_flags(b))) by {
                reveal(tables_wf);
            }
            let e2 = m[slot(r.level2 as int, large)];
            assert(is_entry(e2) && (e2 != 0 ==> e3 != 0)) by {
                reveal(is_linked);
                assert(large / 512 == gigabyte);
            }
            if e3 != 0 {
                lemma_link(b, r.level2 + 0x1000 * gigabyte);
                assert(slot((e3 & ENTRY_ADDRESS) as int, i2) == slot(r.level2 as int, large));
                if e2 != 0 && e2 & NESTED_LARGE_PAGE == 0 {
                    lemma_leaf_entry(b, r, m, gpa);
                }
            }
        } else {
            assert(e3 == 0) by {
                reveal(is_linked);
            }
        }
    }
}

/// The tables of a new Domain are linked.
pub proof fn law_fresh_tables_are_linked(
    before: Map<int, u64>,
    m: Map<int, u64>,
    b: BackendKind,
    r: NestedPageResources,
)
    requires
        r.is_valid(),
        r.is_disjoint(),
        r.is_mapped(before),
        is_initialized(before, m, b, r),
    ensures
        tables_wf(b, r, m),
        is_linked(b, r, m),
{
    lemma_initialized_tables(before, m, b, r);
    reveal(is_linked);
    lemma_flags(b);
    lemma_link(b, r.level2 as int);
    assert forall|i: int| 0 <= i < 512 * r.level2_pages implies is_entry(
        #[trigger] m[slot(r.level2 as int, i)],
    ) && (m[slot(r.level2 as int, i)] != 0 ==> m[slot(r.level3 as int, i / 512)] != 0) by {
        if i < r.level1_pages {
            lemma_link(b, r.level1 + 0x1000 * i);
            assert(i / 512 == 0);
            assert(m[slot(r.level3 as int, 0)] == entry(r.level2 as int, link_flags(b)));
        }
    }
    assert forall|i: int| 0 <= i < 512 * r.level1_pages implies is_entry(
        #[trigger] m[slot(r.level1 as int, i)],
    ) by {
        if i < r.guest_pages {
            lemma_present((r.guest_base + 0x1000 * i) as u64, ram_flags(b));
        }
    }
}

proof fn lemma_present(address: u64, flags: u64)
    requires
        flags & 1 == 1,
    ensures
        is_entry(address | flags),
{
    assert((address | flags) & 1 == 1) by (bit_vector)
        requires
            flags & 1 == 1,
    ;
}

proof fn lemma_present_flags(b: BackendKind, writable: bool)
    ensures
        large_device_flags(b) & 1 == 1,
        shared_flags(b, writable) & 1 == 1,
        is_entry(0),
{
    assert((0b011u64 | 0x80) & 1 == 1 && (0x8000_0000_0000_001fu64 | 0x80) & 1 == 1 && 0x31u64 & 1
        == 1 && (0x31u64 | 2) & 1 == 1 && 0x8000_0000_0000_0005u64 & 1 == 1 && (
    0x8000_0000_0000_0005u64 | 2) & 1 == 1) by (bit_vector);
}

/// Giving a page of the Domain's RAM another meaning keeps the tables linked: sharing a
/// page over it, mapping a device page over it, or restoring it.
pub proof fn law_remapped_pages_stay_linked(
    b: BackendKind,
    r: NestedPageResources,
    m: Map<int, u64>,
    guest_page: u64,
    host_page: u64,
    writable: bool,
)
    requires
        r.is_valid(),
        is_separate(r),
        is_linked(b, r, m),
        is_ram_page(r, guest_page),
    ensures
        is_linked(b, r, m.insert(ram_slot(r, guest_page), host_page | shared_flags(b, writable))),
        is_linked(b, r, m.insert(ram_slot(r, guest_page), host_page | device_flags(b))),
        is_linked(
            b,
            r,
            m.insert(ram_slot(r, guest_page), entry(r.guest_base + guest_page, ram_flags(b))),
        ),
{
    lemma_flags(b);
    lemma_present_flags(b, writable);
    let i = guest_page as int / 0x1000;
    let at = ram_slot(r, guest_page);
    assert(0 <= i < 512 * r.level1_pages && at == slot(r.level1 as int, i));
    lemma_present(host_page, shared_flags(b, writable));
    lemma_present(host_page, device_flags(b));
    lemma_present((r.guest_base + guest_page) as u64, ram_flags(b));
    lemma_store(b, r, m, at, host_page | shared_flags(b, writable));
    lemma_store(b, r, m, at, host_page | device_flags(b));
    lemma_store(b, r, m, at, entry(r.guest_base + guest_page, ram_flags(b)));
}

/// Linking a table of the second level keeps the rest linked, and lets it be used.
proof fn lemma_linked_level2(b: BackendKind, r: NestedPageResources, m: Map<int, u64>, guest: int)
    requires
        tables_wf(b, r, m),
        is_linked(b, r, m),
        0 <= guest,
        reaches(r, guest),
    ensures
        ({
            let n = with_level2_linked(b, r, m, guest);
            &&& tables_wf(b, r, n)
            &&& is_linked(b, r, n)
            &&& n[level2_slot(r, guest)] == m[level2_slot(r, guest)]
            &&& forall|e: u64|
                is_entry(e) ==> #[trigger] may_hold(b, r, n, level2_slot(r, guest), e)
        }),
{
    reveal(reaches);
    lemma_tables(b, r, m);
    lemma_level2_index(guest, r.level2_pages as int);
    let i = guest / (GIGABYTE as int);
    let link = entry(r.level2 + 0x1000 * i, link_flags(b));
    lemma_link(b, r.level2 + 0x1000 * i);
    assert(level3_slot(r, guest) == slot(r.level3 as int, i));
    lemma_store(b, r, m, level3_slot(r, guest), link);
    lemma_level3_write(b, r, m, guest);
    let n = with_level2_linked(b, r, m, guest);
    let large = guest / (LARGE_PAGE_SIZE as int);
    assert(n[slot(r.level3 as int, large / 512)] == link);
    assert(level2_slot(r, guest) == slot(r.level2 as int, large));
}

/// Finding or making a leaf table keeps the tables linked.
proof fn lemma_linked_leaf_table(
    b: BackendKind,
    r: NestedPageResources,
    m: Map<int, u64>,
    guest: int,
)
    requires
        tables_wf(b, r, m),
        is_linked(b, r, m),
        0 <= guest,
        reaches(r, guest),
    ensures
        is_linked(b, r, with_leaf_table(b, r, m, guest).1),
{
    lemma_tables(b, r, m);
    lemma_linked_level2(b, r, m, guest);
    let linked = with_level2_linked(b, r, m, guest);
    let e = linked[level2_slot(r, guest)];
    let n = device_tables(r, linked);
    if e & ENTRY_ADDRESS == 0 && n < r.device_level1_pages {
        let counted = linked.insert(r.device_state as int, (n + 1) as u64);
        let link = entry(r.device_level1 + 0x1000 * n, link_flags(b));
        lemma_link(b, r.device_level1 + 0x1000 * n);
        lemma_store(b, r, linked, r.device_state as int, (n + 1) as u64);
        assert(may_hold(b, r, linked, level2_slot(r, guest), link));
        let i = guest / (LARGE_PAGE_SIZE as int);
        assert(level2_slot(r, guest) == slot(r.level2 as int, i));
        assert(may_hold(b, r, counted, level2_slot(r, guest), link)) by {
            reveal(reaches);
            reveal(is_separate);
            lemma_level2_index(guest, r.level2_pages as int);
            let g = guest / (GIGABYTE as int);
            lemma_link(b, r.level2 + 0x1000 * g);
            assert(i / 512 == g);
            assert(counted[slot(r.level3 as int, g)] == linked[slot(r.level3 as int, g)]);
        }
        lemma_store(b, r, counted, level2_slot(r, guest), link);
    }
}

/// Mapping a leaf keeps the tables linked.
proof fn lemma_linked_map_step(
    b: BackendKind,
    r: NestedPageResources,
    m: Map<int, u64>,
    guest: int,
    host: int,
    len: int,
)
    requires
        tables_wf(b, r, m),
        is_linked(b, r, m),
        0 <= guest,
    ensures
        is_linked(b, r, map_step(b, r, m, guest, host, len).1),
{
    reveal(map_step);
    lemma_tables(b, r, m);
    lemma_flags(b);
    lemma_present_flags(b, false);
    if reaches(r, guest) {
        lemma_linked_level2(b, r, m, guest);
        lemma_linked_leaf_table(b, r, m, guest);
        lemma_present(host as u64, large_device_flags(b));
        lemma_present(host as u64, device_flags(b));
        let linked = with_level2_linked(b, r, m, guest);
        let large = entry(host, large_device_flags(b));
        assert(may_hold(b, r, linked, level2_slot(r, guest), large));
        lemma_store(b, r, linked, level2_slot(r, guest), large);
        let (ready, tables) = with_leaf_table(b, r, m, guest);
        lemma_with_leaf_table(b, r, m, guest);
        if ready {
            lemma_leaf_entry(b, r, tables, guest);
            let at = leaf_slot(tables[level2_slot(r, guest)], guest);
            assert(may_hold(b, r, tables, at, entry(host, device_flags(b))));
            lemma_store(b, r, tables, at, entry(host, device_flags(b)));
        }
    }
}

/// Removing a leaf keeps the tables linked.
proof fn lemma_linked_unmap_step(
    b: BackendKind,
    r: NestedPageResources,
    m: Map<int, u64>,
    guest: int,
)
    requires
        tables_wf(b, r, m),
        is_linked(b, r, m),
        0 <= guest,
    ensures
        is_linked(b, r, unmap_step(b, r, m, guest).1),
{
    lemma_tables(b, r, m);
    lemma_flags(b);
    if reaches(r, guest) {
        lemma_linked_level2(b, r, m, guest);
        let linked = with_level2_linked(b, r, m, guest);
        let e = linked[level2_slot(r, guest)];
        assert(is_entry(0));
        assert(may_hold(b, r, linked, level2_slot(r, guest), 0));
        lemma_store(b, r, linked, level2_slot(r, guest), 0);
        if e & NESTED_LARGE_PAGE == 0 && e & ENTRY_ADDRESS != 0 {
            assert(e != 0);
            lemma_leaf_entry(b, r, linked, guest);
            assert(may_hold(b, r, linked, leaf_slot(e, guest), 0));
            lemma_store(b, r, linked, leaf_slot(e, guest), 0);
        }
    }
}

/// Mapping leaf by leaf keeps the tables linked.
proof fn lemma_linked_map_leaves(
    b: BackendKind,
    r: NestedPageResources,
    m: Map<int, u64>,
    guest: int,
    host: int,
    len: int,
)
    requires
        tables_wf(b, r, m),
        is_linked(b, r, m),
        0 <= guest,
        guest % 0x1000 == 0,
        0 < host,
        host % 0x1000 == 0,
        0 <= len,
        len % 0x1000 == 0,
        host + len <= PHYSICAL_LIMIT,
    ensures
        is_linked(b, r, map_leaves(b, r, m, guest, host, len).1),
    decreases len,
{
    if len == 0 {
        lemma_map_leaves_empty(b, r, m, guest, host);
    } else {
        lemma_map_leaves_unfold(b, r, m, guest, host, len);
        lemma_map_step(b, r, m, guest, host, len);
        lemma_linked_map_step(b, r, m, guest, host, len);
        let (ok, next) = map_step(b, r, m, guest, host, len);
        let size = step_size(guest, host, len);
        if ok {
            lemma_linked_map_leaves(b, r, next, guest + size, host + size, len - size);
        }
    }
}

/// Removing device leaves keeps the tables linked.
pub proof fn law_unmapping_stays_linked(
    b: BackendKind,
    r: NestedPageResources,
    m: Map<int, u64>,
    guest: int,
    len: int,
)
    requires
        tables_wf(b, r, m),
        is_linked(b, r, m),
        0 <= guest,
        guest % 0x1000 == 0,
    ensures
        tables_wf(b, r, unmap_leaves(b, r, m, guest, len).1),
        is_linked(b, r, unmap_leaves(b, r, m, guest, len).1),
    decreases
            (if len > 0 {
                len
            } else {
                0
            }),
{
    lemma_unmap_leaves_unfold(b, r, m, guest, len);
    if len > 0 {
        lemma_unmap_step(b, r, m, guest);
        lemma_linked_unmap_step(b, r, m, guest);
        let (size, next) = unmap_step(b, r, m, guest);
        if size > 0 {
            law_unmapping_stays_linked(b, r, next, guest + size, len - size);
        }
    }
}

/// Mapping a device range, or failing to, keeps the tables linked.
pub proof fn law_mapping_stays_linked(
    b: BackendKind,
    r: NestedPageResources,
    m: Map<int, u64>,
    guest_start: u64,
    host_start: u64,
    len: u64,
)
    requires
        tables_wf(b, r, m),
        is_linked(b, r, m),
        host_start + len <= PHYSICAL_LIMIT,
    ensures
        is_linked(b, r, map_range(b, r, m, guest_start, host_start, len).1),
{
    if is_mappable_range(r, guest_start, host_start, len) {
        let (guest, host) = (guest_start as int, host_start as int);
        lemma_linked_map_leaves(b, r, m, guest, host, len as int);
        lemma_map_leaves(b, r, m, guest, host, len as int);
        let (ok, next, left) = map_leaves(b, r, m, guest, host, len as int);
        if !ok {
            law_unmapping_stays_linked(b, r, next, guest, len - left);
        }
    }
}

} // verus!
