//! What remapping units find when they walk the tables.

use vstd::prelude::*;
use vstd::arithmetic::div_mod::lemma_div_denominator;

use crate::bits::lemma_entry;
use super::{Error, IommuKind, ReservedMapping};
use super::tables::{
    allocated, context_at, dma_leaf_flags, dma_link_flags, domain_mapped, domain_step, entry_at,
    identity_leaf, identity_mapped, identity_step, intel_arena, intel_context_high,
    is_reserved_range, with_child, with_reserved_context, with_reserved_range, with_reserved_ranges,
    with_root_entry, TableArena, CONTEXT_ADDRESS, ENTRY_ADDRESS, INTEL_LARGE_READ_WRITE,
    INTEL_PRESENT, INTEL_READ_WRITE, INTEL_RESERVED_DOMAIN, LARGE_PAGE, PHYSICAL_LIMIT,
};

pub mod assignment;

verus! {

/// The number of pages that four levels of tables can map.
pub const WALK_PAGES: u64 = 0x10_0000_0000;

/// The `k`-th word of a page.
pub open spec fn word(m: Map<int, u64>, page: int, k: int) -> u64 {
    m[page + 8 * k]
}

/// The entry that maps the `n`-th page of an address space, as a unit finds it
/// from the top table `root` on: nothing where an entry on the way is empty.
pub open spec fn walked(m: Map<int, u64>, root: int, n: int) -> Option<u64> {
    let fourth = word(m, root, n / 0x800_0000 % 512) & ENTRY_ADDRESS;
    let third = word(m, fourth as int, n / 0x4_0000 % 512) & ENTRY_ADDRESS;
    let second = word(m, third as int, n / 0x200 % 512);
    let leaf = word(m, (second & ENTRY_ADDRESS) as int, n % 512);
    if fourth == 0 || third == 0 {
        None
    } else if second & LARGE_PAGE != 0 {
        Some(second)
    } else if second & ENTRY_ADDRESS == 0 || leaf == 0 {
        None
    } else {
        Some(leaf)
    }
}

/// The place of a table: level 6 is the root table, level 5 the context table of
/// a bus, levels 4 to 1 the page tables of the requester or domain `tree`.
struct Place {
    level: int,
    tree: int,
    prefix: int,
}

spec fn below(p: Place, i: int) -> Place {
    if p.level == 6 {
        Place { level: 5, tree: 0, prefix: i }
    } else if p.level == 5 {
        Place { level: 4, tree: p.prefix * 256 + i, prefix: 0 }
    } else {
        Place { level: p.level - 1, tree: p.tree, prefix: p.prefix * 512 + i }
    }
}

/// What the tables may hold.
struct Content {
    trees: spec_fn(int) -> bool,
    small: spec_fn(int, int, u64) -> bool,
    large: spec_fn(int, int, u64) -> bool,
}

/// No word of the large page at `base` is owned.
#[verifier::opaque]
spec fn is_foreign(owned: Set<int>, base: int) -> bool {
    forall|a: int| base <= a < base + 0x20_0000 ==> !#[trigger] owned.contains(a)
}

spec fn leads_to(o: Map<int, Place>, page: int, p: Place) -> bool {
    o.dom().contains(page) && o[page] == p
}

/// An entry is empty, leads to the table that belongs there, or maps what it may.
#[verifier::opaque]
spec fn entry_ok(m: Map<int, u64>, o: Map<int, Place>, c: Content, page: int, i: int) -> bool {
    let p = o[page];
    if p.level >= 5 {
        let e = word(m, page, 2 * i);
        0 <= i < 256 ==> {
            ||| e == 0 && word(m, page, 2 * i + 1) == 0
            ||| {
                &&& e != 0
                &&& leads_to(o, (e & CONTEXT_ADDRESS) as int, below(p, i))
                &&& p.level == 5 ==> (c.trees)(below(p, i).tree)
            }
        }
    } else if p.level >= 2 {
        let e = word(m, page, i);
        0 <= i < 512 ==> {
            ||| e == 0
            ||| e & LARGE_PAGE == 0 && leads_to(o, (e & ENTRY_ADDRESS) as int, below(p, i))
            ||| {
                &&& p.level == 2
                &&& e & LARGE_PAGE != 0
                &&& (c.large)(p.tree, p.prefix * 512 + i, e)
                &&& is_foreign(m.dom(), (e & ENTRY_ADDRESS) as int)
            }
        }
    } else {
        let e = word(m, page, i);
        0 <= i < 512 ==> e == 0 || (c.small)(p.tree, p.prefix * 512 + i, e)
    }
}

/// A page that was taken from the arena.
spec fn is_taken(a: TableArena, page: int) -> bool {
    page % 0x1000 == 0 && a.base <= page < a.page(a.next_page as int)
}

/// Every table has one place, and its entries are sound.
spec fn sound(m: Map<int, u64>, a: TableArena, o: Map<int, Place>, c: Content) -> bool {
    &&& a.wf(m)
    &&& forall|page: int| #[trigger]
        o.dom().contains(page) ==> is_taken(a, page) && 1 <= o[page].level <= 6
    &&& forall|page: int, i: int|
        o.dom().contains(page) ==> #[trigger] entry_ok(m, o, c, page, i)
}

/// What was stored in the tables is still there.
spec fn kept(m: Map<int, u64>, m1: Map<int, u64>, o: Map<int, Place>) -> bool {
    forall|page: int, k: int|
        o.dom().contains(page) && 0 <= k < 512 && word(m, page, k) != 0 ==> #[trigger] word(
            m1,
            page,
            k,
        ) == word(m, page, k)
}

/// Only tables were written.
spec fn confined(m: Map<int, u64>, m1: Map<int, u64>, o1: Map<int, Place>) -> bool {
    forall|w: int|
        m.dom().contains(w) && !o1.dom().contains(page_of(w)) ==> #[trigger] m1[w] == m[w]
}

spec fn page_of(w: int) -> int {
    w - w % 0x1000
}

/// The tables that were added are on pages that were free.
spec fn grown(o1: Map<int, Place>, o: Map<int, Place>, a: TableArena) -> bool {
    forall|page: int| #[trigger]
        o1.dom().contains(page) ==> o.dom().contains(page) || page >= a.page(a.next_page as int)
}

/// The places of the tables are still the same.
spec fn extends(o1: Map<int, Place>, o: Map<int, Place>) -> bool {
    forall|page: int|
        o.dom().contains(page) ==> #[trigger] o1.dom().contains(page) && o1[page] == o[page]
}

/// An entry stays sound while its words stay and no table moves.
proof fn lemma_same_entry(
    m: Map<int, u64>,
    m1: Map<int, u64>,
    o: Map<int, Place>,
    o1: Map<int, Place>,
    c: Content,
    page: int,
    i: int,
)
    requires
        entry_ok(m, o, c, page, i),
        o.dom().contains(page),
        extends(o1, o),
        m1.dom() == m.dom(),
        0 <= i < 512 && o[page].level < 5 ==> word(m1, page, i) == word(m, page, i),
        0 <= i < 256 && o[page].level >= 5 ==> word(m1, page, 2 * i) == word(m, page, 2 * i),
        0 <= i < 256 && o[page].level >= 5 ==> word(m1, page, 2 * i + 1) == word(
            m,
            page,
            2 * i + 1,
        ),
    ensures
        entry_ok(m1, o1, c, page, i),
{
    reveal(entry_ok);
    assert(o1.dom().contains(page));
    let p = o[page];
    let e = word(m, page, link_word(p, i));
    let target = (e & link_mask(p)) as int;
    if leads_to(o, target, below(p, i)) {
        assert(o1.dom().contains(target));
    }
}

/// Taking a page leaves the tables as they are.
proof fn lemma_fresh(m: Map<int, u64>, a: TableArena, o: Map<int, Place>, c: Content, p: Place)
    requires
        sound(m, a, o, c),
        a.next_page < a.page_count,
        1 <= p.level <= 6,
    ensures
        ({
            let page = a.page(a.next_page as int);
            let fresh = allocated(m, a);
            let o1 = o.insert(page, p);
            &&& fresh.result == Ok::<u64, Error>(page as u64)
            &&& page % 0x1000 == 0
            &&& 0 < page < PHYSICAL_LIMIT
            &&& !o.dom().contains(page)
            &&& fresh.memory.dom() == m.dom()
            &&& sound(fresh.memory, fresh.arena, o1, c)
            &&& extends(o1, o)
            &&& forall|q: int, k: int|
                o.dom().contains(q) && 0 <= k < 512 ==> #[trigger] word(fresh.memory, q, k) == word(
                    m,
                    q,
                    k,
                )
        }),
{
    let page = a.page(a.next_page as int);
    let fresh = allocated(m, a);
    let m1 = fresh.memory;
    let o1 = o.insert(page, p);
    assert(m1.dom() =~= m.dom());
    if o.dom().contains(page) {
        assert(is_taken(a, page));
    }
    assert forall|q: int, k: int| o.dom().contains(q) && 0 <= k < 512 implies #[trigger] word(
        m1,
        q,
        k,
    ) == word(m, q, k) by {
        assert(is_taken(a, q));
        assert(q + 8 * k < page) by {
            assert(q + 0x1000 <= page) by {
                lemma_aligned_below(q, page);
            }
        }
        assert(m.dom().contains(q + 8 * k));
    }
    assert forall|q: int| #[trigger] o1.dom().contains(q) implies is_taken(fresh.arena, q) && 1
        <= o1[q].level <= 6 by {
        if q != page {
            assert(o.dom().contains(q));
        }
    }
    assert forall|q: int, i: int| o1.dom().contains(q) implies #[trigger] entry_ok(
        m1,
        o1,
        c,
        q,
        i,
    ) by {
        if q == page {
            reveal(entry_ok);
            if 0 <= i < 512 {
                assert(m.dom().contains(page + 8 * i));
                assert(word(m1, page, i) == 0);
            }
            if 0 <= i < 256 {
                assert(m.dom().contains(page + 8 * (2 * i)));
                assert(m.dom().contains(page + 8 * (2 * i + 1)));
                assert(word(m1, page, 2 * i) == 0 && word(m1, page, 2 * i + 1) == 0);
            }
        } else {
            assert(entry_ok(m, o, c, q, i));
            if 0 <= i < 512 {
                assert(word(m1, q, i) == word(m, q, i));
            }
            if 0 <= i < 256 {
                assert(word(m1, q, 2 * i) == word(m, q, 2 * i));
                assert(word(m1, q, 2 * i + 1) == word(m, q, 2 * i + 1));
            }
            lemma_same_entry(m, m1, o, o1, c, q, i);
        }
    }
}

proof fn lemma_aligned_below(q: int, page: int)
    requires
        q % 0x1000 == 0,
        page % 0x1000 == 0,
        q < page,
    ensures
        q + 0x1000 <= page,
{
}

/// Editing one table soundly leaves all tables sound.
#[verifier::spinoff_prover]
proof fn lemma_page_edit(
    m: Map<int, u64>,
    m1: Map<int, u64>,
    a: TableArena,
    o: Map<int, Place>,
    c: Content,
    page: int,
)
    requires
        sound(m, a, o, c),
        o.dom().contains(page),
        m1.dom() == m.dom(),
        forall|w: int| m.dom().contains(w) && page_of(w) != page ==> #[trigger] m1[w] == m[w],
        forall|i: int| #[trigger] entry_ok(m1, o, c, page, i),
        forall|k: int|
            0 <= k < 512 && word(m, page, k) != 0 ==> #[trigger] word(m1, page, k) == word(
                m,
                page,
                k,
            ),
    ensures
        sound(m1, a, o, c),
        kept(m, m1, o),
        confined(m, m1, o),
{
    assert forall|q: int, j: int| o.dom().contains(q) && 0 <= j < 512 && q != page implies
        #[trigger] word(m1, q, j) == word(m, q, j) by {
        lemma_table_word(m, a, o, c, q, j);
    }
    assert(a.wf(m1));
    assert forall|q: int, i: int| o.dom().contains(q) implies #[trigger] entry_ok(
        m1,
        o,
        c,
        q,
        i,
    ) by {
        if q == page {
            assert(entry_ok(m1, o, c, page, i));
        } else {
            assert(entry_ok(m, o, c, q, i));
            if 0 <= i < 512 {
                assert(word(m1, q, i) == word(m, q, i));
            }
            if 0 <= i < 256 {
                assert(word(m1, q, 2 * i) == word(m, q, 2 * i));
                assert(word(m1, q, 2 * i + 1) == word(m, q, 2 * i + 1));
            }
            lemma_same_entry(m, m1, o, o, c, q, i);
        }
    }
    assert(kept(m, m1, o)) by {
        assert forall|q: int, k: int|
            o.dom().contains(q) && 0 <= k < 512 && word(m, q, k) != 0 implies #[trigger] word(
            m1,
            q,
            k,
        ) == word(m, q, k) by {
            if q != page {
                lemma_table_word(m, a, o, c, q, k);
            }
        }
    }
}

/// A word of a table is owned and lies in its page.
#[verifier::spinoff_prover]
proof fn lemma_table_word(
    m: Map<int, u64>,
    a: TableArena,
    o: Map<int, Place>,
    c: Content,
    page: int,
    k: int,
)
    requires
        sound(m, a, o, c),
        o.dom().contains(page),
        0 <= k < 512,
    ensures
        m.dom().contains(page + 8 * k),
        page_of(page + 8 * k) == page,
        forall|v: u64| (#[trigger] m.insert(page + 8 * k, v)).dom() == m.dom(),
{
    assert(is_taken(a, page));
    lemma_aligned_below(page, a.page(a.next_page as int));
    assert(0x1000 * a.next_page <= 0x1000 * a.page_count);
    assert(m.dom().contains(page + 8 * k));
    assert forall|v: u64| (#[trigger] m.insert(page + 8 * k, v)).dom() == m.dom() by {
        assert(m.insert(page + 8 * k, v).dom() =~= m.dom());
    }
}

/// The entry of a table that leads on.
spec fn link_word(p: Place, i: int) -> int {
    if p.level >= 5 {
        2 * i
    } else {
        i
    }
}

spec fn link_mask(p: Place) -> u64 {
    if p.level >= 5 {
        CONTEXT_ADDRESS
    } else {
        ENTRY_ADDRESS
    }
}

/// What an entry says of the table that it leads to.
proof fn lemma_follow(
    m: Map<int, u64>,
    a: TableArena,
    o: Map<int, Place>,
    c: Content,
    page: int,
    i: int,
)
    requires
        sound(m, a, o, c),
        o.dom().contains(page),
        2 <= o[page].level <= 6,
        0 <= i < 512,
        o[page].level >= 5 ==> i < 256,
    ensures
        ({
            let p = o[page];
            let e = word(m, page, link_word(p, i));
            &&& m.dom().contains(page + 8 * link_word(p, i))
            &&& e & link_mask(p) == 0 && e & LARGE_PAGE == 0 ==> e == 0
            &&& p.level >= 5 && e & link_mask(p) == 0 ==> e == 0
            &&& e != 0 && (p.level != 2 || e & LARGE_PAGE == 0) ==> {
                &&& leads_to(o, (e & link_mask(p)) as int, below(p, i))
                &&& p.level == 5 ==> (c.trees)(below(p, i).tree)
            }
            &&& p.level == 2 && e & LARGE_PAGE != 0 ==> {
                &&& (c.large)(p.tree, p.prefix * 512 + i, e)
                &&& is_foreign(m.dom(), (e & ENTRY_ADDRESS) as int)
            }
        }),
{
    let p = o[page];
    let e = word(m, page, link_word(p, i));
    assert(entry_ok(m, o, c, page, i));
    assert(is_taken(a, page));
    lemma_aligned_below(page, a.page(a.next_page as int));
    reveal(entry_ok);
    lemma_nothing_masked(link_mask(p));
    if leads_to(o, 0, below(p, i)) {
        assert(is_taken(a, 0));
    }
}

/// Making an empty entry lead to a fresh page keeps the tables sound.
proof fn lemma_new_link(
    m: Map<int, u64>,
    a: TableArena,
    o: Map<int, Place>,
    c: Content,
    page: int,
    i: int,
    value: u64,
)
    requires
        sound(m, a, o, c),
        o.dom().contains(page),
        2 <= o[page].level <= 6,
        0 <= i < 512,
        o[page].level >= 5 ==> i < 256,
        o[page].level == 5 ==> (c.trees)(below(o[page], i).tree),
        word(m, page, link_word(o[page], i)) == 0,
        value & LARGE_PAGE == 0,
        value != 0,
        leads_to(o, (value & link_mask(o[page])) as int, below(o[page], i)),
    ensures
        ({
            let m1 = m.insert(page + 8 * link_word(o[page], i), value);
            &&& sound(m1, a, o, c)
            &&& kept(m, m1, o)
            &&& m1.dom() == m.dom()
        }),
{
    let p = o[page];
    let k = link_word(p, i);
    let m1 = m.insert(page + 8 * k, value);
    lemma_table_word(m, a, o, c, page, k);
    assert(word(m1, page, k) == value);
    assert forall|j: int| #[trigger] entry_ok(m1, o, c, page, j) by {
        assert(entry_ok(m, o, c, page, j));
        if j == i {
            reveal(entry_ok);
        } else {
            lemma_same_entry(m, m1, o, o, c, page, j);
        }
    }
    lemma_page_edit(m, m1, a, o, c, page);
}

/// Following an entry, or making it lead to a fresh page, keeps the tables sound.
#[verifier::spinoff_prover]
proof fn lemma_link(
    m: Map<int, u64>,
    a: TableArena,
    o: Map<int, Place>,
    c: Content,
    page: int,
    i: int,
    flags: u64,
) -> (o1: Map<int, Place>)
    requires
        sound(m, a, o, c),
        o.dom().contains(page),
        2 <= o[page].level <= 6,
        0 <= i < 512,
        o[page].level >= 5 ==> i < 256,
        o[page].level == 5 ==> (c.trees)(below(o[page], i).tree),
        o[page].level == 2 ==> word(m, page, i) & LARGE_PAGE == 0,
        flags & ENTRY_ADDRESS == 0,
        flags & LARGE_PAGE == 0,
        o[page].level >= 5 ==> flags == INTEL_PRESENT,
    ensures
        ({
            let edit = with_child(
                m,
                a,
                page + 8 * link_word(o[page], i),
                link_mask(o[page]),
                flags,
            );
            &&& edit.memory.dom() == m.dom()
            &&& sound(edit.memory, edit.arena, o1, c)
            &&& extends(o1, o)
            &&& kept(m, edit.memory, o)
            &&& confined(m, edit.memory, o1)
            &&& grown(o1, o, a)
            &&& same_arena(edit.arena, a)
            &&& edit.result matches Ok(child) ==> {
                &&& leads_to(o1, child as int, below(o[page], i))
                &&& child != 0
                &&& word(edit.memory, page, link_word(o[page], i)) & link_mask(o[page]) == child
                &&& o[page].level <= 4 ==> word(edit.memory, page, i) & LARGE_PAGE == 0
            }
        }),
{
    let p = o[page];
    let k = link_word(p, i);
    let mask = link_mask(p);
    lemma_follow(m, a, o, c, page, i);
    lemma_nothing_masked(mask);
    if word(m, page, k) & mask != 0 {
        if p.level <= 4 {
            assert(entry_ok(m, o, c, page, i));
            reveal(entry_ok);
        }
        o
    } else if a.next_page < a.page_count {
        let child = a.page(a.next_page as int);
        let fresh = allocated(m, a);
        let o1 = o.insert(child, below(p, i));
        if p.level <= 4 {
            assert(entry_ok(m, o, c, page, i));
            reveal(entry_ok);
            if leads_to(o, 0, below(p, i)) {
                assert(is_taken(a, 0));
            }
        }
        lemma_fresh(m, a, o, c, below(p, i));
        lemma_link_value(child as u64, flags, mask);
        assert(word(fresh.memory, page, k) == word(m, page, k));
        lemma_new_link(fresh.memory, fresh.arena, o1, c, page, i, child as u64 | flags);
        let edit = with_child(m, a, page + 8 * k, mask, flags);
        assert forall|q: int, j: int|
            o.dom().contains(q) && 0 <= j < 512 && word(m, q, j) != 0 implies #[trigger] word(
            edit.memory,
            q,
            j,
        ) == word(m, q, j) by {
            assert(word(fresh.memory, q, j) == word(m, q, j));
            assert(o1.dom().contains(q));
        }
        assert(word(edit.memory, page, k) == child as u64 | flags);
        assert forall|w: int|
            m.dom().contains(w) && !o1.dom().contains(
                page_of(w),
            ) implies #[trigger] edit.memory[w] == m[w] by {
            assert(page_of(child) == child);
            assert(is_taken(a, page));
            lemma_page_of(page, k, w);
            if child <= w < child + 0x1000 {
                assert(page_of(w) == child);
            }
        }
        o1
    } else {
        o
    }
}

/// Pages were only taken from the end.
spec fn same_arena(b: TableArena, a: TableArena) -> bool {
    &&& b.base == a.base
    &&& b.page_count == a.page_count
    &&& b.next_page >= a.next_page
}

proof fn lemma_page_of(page: int, k: int, w: int)
    requires
        page % 0x1000 == 0,
        0 <= k < 512,
        page_of(w) != page,
    ensures
        w != page + 8 * k,
{
}

proof fn lemma_present_bit()
    ensures
        1u64 & ENTRY_ADDRESS == 0,
        1u64 & LARGE_PAGE == 0,
{
    assert(1u64 & 0x000f_ffff_ffff_f000 == 0 && 1u64 & 0x80 == 0) by (bit_vector);
}

proof fn lemma_nothing_masked(mask: u64)
    ensures
        0u64 & mask == 0,
        0u64 & LARGE_PAGE == 0,
{
    assert(0u64 & mask == 0 && 0u64 & 0x80 == 0) by (bit_vector);
}

proof fn lemma_link_value(address: u64, flags: u64, mask: u64)
    requires
        address % 0x1000 == 0,
        0 < address < PHYSICAL_LIMIT,
        flags & ENTRY_ADDRESS == 0,
        flags & LARGE_PAGE == 0,
        mask == ENTRY_ADDRESS || (mask == CONTEXT_ADDRESS && flags == INTEL_PRESENT),
    ensures
        (address | flags) & mask == address,
        (address | flags) & LARGE_PAGE == 0,
        address | flags != 0,
{
    lemma_entry(address, flags);
    assert((address | 1) & 0xffff_ffff_ffff_f000 == address && (address & 0x000f_ffff_ffff_f000
        == address) && ((address | flags) & 0x80 == flags & 0x80) && (address | flags) != 0)
        by (bit_vector)
        requires
            address % 0x1000 == 0,
            0 < address,
            address < 0x10_0000_0000_0000,
    ;
}

/// Mapping a page keeps the tables sound.
proof fn lemma_leaf(
    m: Map<int, u64>,
    a: TableArena,
    o: Map<int, Place>,
    c: Content,
    page: int,
    i: int,
    value: u64,
)
    requires
        sound(m, a, o, c),
        o.dom().contains(page),
        o[page].level == 1,
        0 <= i < 512,
        (c.small)(o[page].tree, o[page].prefix * 512 + i, value),
        word(m, page, i) == 0 || word(m, page, i) == value,
    ensures
        m.dom().contains(page + 8 * i),
        sound(m.insert(page + 8 * i, value), a, o, c),
        kept(m, m.insert(page + 8 * i, value), o),
        confined(m, m.insert(page + 8 * i, value), o),
        m.insert(page + 8 * i, value).dom() == m.dom(),
{
    let m1 = m.insert(page + 8 * i, value);
    lemma_table_word(m, a, o, c, page, i);
    assert forall|j: int| #[trigger] entry_ok(m1, o, c, page, j) by {
        assert(entry_ok(m, o, c, page, j));
        if j == i {
            reveal(entry_ok);
        } else {
            lemma_same_entry(m, m1, o, o, c, page, j);
        }
    }
    lemma_page_edit(m, m1, a, o, c, page);
}

/// The tables on the way to a page of an address space.
spec fn on_path(p: Place, level: int, tree: int, n: int) -> bool {
    p == (Place {
        level,
        tree,
        prefix: if level == 4 {
            0
        } else if level == 3 {
            n / 0x800_0000
        } else if level == 2 {
            n / 0x4_0000
        } else {
            n / 0x200
        },
    })
}

spec fn path_index(level: int, n: int) -> int {
    if level == 4 {
        n / 0x800_0000 % 512
    } else if level == 3 {
        n / 0x4_0000 % 512
    } else if level == 2 {
        n / 0x200 % 512
    } else {
        n % 512
    }
}

proof fn lemma_path(p: Place, level: int, tree: int, n: int)
    requires
        on_path(p, level, tree, n),
        1 <= level <= 4,
        0 <= n < WALK_PAGES,
    ensures
        0 <= path_index(level, n) < 512,
        level >= 2 ==> on_path(below(p, path_index(level, n)), level - 1, tree, n),
        level == 2 ==> p.prefix * 512 + path_index(level, n) == n / 0x200,
        level == 1 ==> p.prefix * 512 + path_index(level, n) == n,
{
}

/// What a walk finds is what the tables may hold.
proof fn lemma_walk_is_sound(
    m: Map<int, u64>,
    a: TableArena,
    o: Map<int, Place>,
    c: Content,
    root: int,
    tree: int,
    n: int,
)
    requires
        sound(m, a, o, c),
        leads_to(o, root, (Place { level: 4, tree, prefix: 0 })),
        0 <= n < WALK_PAGES,
    ensures
        walked(m, root, n) matches Some(e) ==> {
            ||| (c.small)(tree, n, e)
            ||| (c.large)(tree, n / 0x200, e) && e & LARGE_PAGE != 0
        },
{
    lemma_nothing_masked(ENTRY_ADDRESS);
    if walked(m, root, n) is Some {
        lemma_path(o[root], 4, tree, n);
        lemma_follow(m, a, o, c, root, path_index(4, n));
        let third = (word(m, root, path_index(4, n)) & ENTRY_ADDRESS) as int;
        lemma_path(o[third], 3, tree, n);
        lemma_follow(m, a, o, c, third, path_index(3, n));
        let second = (word(m, third, path_index(3, n)) & ENTRY_ADDRESS) as int;
        lemma_path(o[second], 2, tree, n);
        lemma_follow(m, a, o, c, second, path_index(2, n));
        if word(m, second, path_index(2, n)) & LARGE_PAGE == 0 {
            let first = (word(m, second, path_index(2, n)) & ENTRY_ADDRESS) as int;
            lemma_path(o[first], 1, tree, n);
            assert(entry_ok(m, o, c, first, path_index(1, n)));
            reveal(entry_ok);
        }
    }
}

/// What a walk found, it still finds.
proof fn lemma_walk_is_kept(
    m: Map<int, u64>,
    m1: Map<int, u64>,
    a: TableArena,
    o: Map<int, Place>,
    c: Content,
    root: int,
    tree: int,
    n: int,
)
    requires
        sound(m, a, o, c),
        leads_to(o, root, (Place { level: 4, tree, prefix: 0 })),
        kept(m, m1, o),
        0 <= n < WALK_PAGES,
        walked(m, root, n) is Some,
    ensures
        walked(m1, root, n) == walked(m, root, n),
{
    lemma_nothing_masked(ENTRY_ADDRESS);
    lemma_path(o[root], 4, tree, n);
    lemma_follow(m, a, o, c, root, path_index(4, n));
    assert(word(m1, root, path_index(4, n)) == word(m, root, path_index(4, n)));
    let third = (word(m, root, path_index(4, n)) & ENTRY_ADDRESS) as int;
    lemma_path(o[third], 3, tree, n);
    lemma_follow(m, a, o, c, third, path_index(3, n));
    assert(word(m1, third, path_index(3, n)) == word(m, third, path_index(3, n)));
    let second = (word(m, third, path_index(3, n)) & ENTRY_ADDRESS) as int;
    lemma_path(o[second], 2, tree, n);
    lemma_follow(m, a, o, c, second, path_index(2, n));
    assert(word(m1, second, path_index(2, n)) == word(m, second, path_index(2, n)));
    if word(m, second, path_index(2, n)) & LARGE_PAGE == 0 {
        let first = (word(m, second, path_index(2, n)) & ENTRY_ADDRESS) as int;
        lemma_path(o[first], 1, tree, n);
        assert(word(m1, first, path_index(1, n)) == word(m, first, path_index(1, n)));
    }
}

/// One edit of the tables: they stay sound, keep what they held, and grow by
/// pages that were free.
spec fn edits(
    m: Map<int, u64>,
    a: TableArena,
    o: Map<int, Place>,
    m1: Map<int, u64>,
    a1: TableArena,
    o1: Map<int, Place>,
    c: Content,
) -> bool {
    &&& sound(m1, a1, o1, c)
    &&& m1.dom() == m.dom()
    &&& extends(o1, o)
    &&& kept(m, m1, o)
    &&& confined(m, m1, o1)
    &&& grown(o1, o, a)
    &&& same_arena(a1, a)
}

proof fn lemma_extends(o: Map<int, Place>, o1: Map<int, Place>, o2: Map<int, Place>)
    requires
        extends(o1, o),
        extends(o2, o1),
    ensures
        extends(o2, o),
{
    assert forall|page: int| o.dom().contains(page) implies #[trigger] o2.dom().contains(page)
        && o2[page] == o[page] by {
        assert(extends(o1, o));
        assert(o1.dom().contains(page));
        assert(o1[page] == o[page]);
        assert(o2.dom().contains(page));
        assert(o2[page] == o1[page]);
    }
}

/// Edits follow one another.
proof fn lemma_edits(
    m: Map<int, u64>,
    a: TableArena,
    o: Map<int, Place>,
    m1: Map<int, u64>,
    a1: TableArena,
    o1: Map<int, Place>,
    m2: Map<int, u64>,
    a2: TableArena,
    o2: Map<int, Place>,
    c: Content,
)
    requires
        edits(m, a, o, m1, a1, o1, c),
        edits(m1, a1, o1, m2, a2, o2, c),
    ensures
        edits(m, a, o, m2, a2, o2, c),
{
    lemma_extends(o, o1, o2);
    assert forall|page: int, k: int|
        o.dom().contains(page) && 0 <= k < 512 && word(m, page, k) != 0 implies #[trigger] word(
        m2,
        page,
        k,
    ) == word(m, page, k) by {
        assert(o1.dom().contains(page));
        assert(word(m1, page, k) == word(m, page, k));
    }
    assert forall|w: int| m.dom().contains(w) && !o2.dom().contains(
        page_of(w),
    ) implies #[trigger] m2[w] == m[w] by {
        if o1.dom().contains(page_of(w)) {
            assert(o2.dom().contains(page_of(w)));
        }
        assert(m1[w] == m[w]);
    }
    assert forall|page: int| #[trigger] o2.dom().contains(page) implies o.dom().contains(page)
        || page >= a.page(a.next_page as int) by {
        if o1.dom().contains(page) {
        }
    }
    assert(kept(m, m2, o));
    assert(confined(m, m2, o2));
    assert(grown(o2, o, a));
}

proof fn lemma_link_flags(kind: IommuKind, level: u64)
    requires
        1 <= level <= 3,
    ensures
        dma_link_flags(kind, level) & ENTRY_ADDRESS == 0,
        dma_link_flags(kind, level) & LARGE_PAGE == 0,
        dma_leaf_flags(kind) != 0,
        INTEL_READ_WRITE & ENTRY_ADDRESS == 0,
        INTEL_READ_WRITE & LARGE_PAGE == 0,
{
    let place = (level * 0x200) as u64;
    assert(3u64 & 0x000f_ffff_ffff_f000 == 0 && 3u64 & 0x80 == 0 && (1u64 | 0x6000_0000_0000_0000)
        != 0) by (bit_vector);
    assert((1u64 | 0x6000_0000_0000_0000 | place) & 0x000f_ffff_ffff_f000 == 0 && (1u64
        | 0x6000_0000_0000_0000 | place) & 0x80 == 0) by (bit_vector)
        requires
            place == 0x200 || place == 0x400 || place == 0x600,
    ;
}

/// Mapping a page of a domain makes a walk find it.
#[verifier::spinoff_prover]
proof fn lemma_domain_step(
    kind: IommuKind,
    m: Map<int, u64>,
    a: TableArena,
    o: Map<int, Place>,
    c: Content,
    level4: u64,
    tree: int,
    host_base: int,
    n: int,
) -> (o1: Map<int, Place>)
    requires
        sound(m, a, o, c),
        leads_to(o, level4 as int, (Place { level: 4, tree, prefix: 0 })),
        0 <= n < WALK_PAGES,
        forall|e: u64| #[trigger]
            (c.small)(tree, n, e) <==> e == (host_base + 0x1000 * n) as u64 | dma_leaf_flags(kind),
        forall|x: int, e: u64| !#[trigger] (c.large)(tree, x, e),
        (host_base + 0x1000 * n) as u64 | dma_leaf_flags(kind) != 0,
    ensures
        ({
            let edit = domain_step(kind, m, a, level4, host_base, 0x1000 * n);
            &&& edits(m, a, o, edit.memory, edit.arena, o1, c)
            &&& edit.result is Ok ==> walked(edit.memory, level4 as int, n) == Some(
                (host_base + 0x1000 * n) as u64 | dma_leaf_flags(kind),
            )
        }),
{
    reveal(domain_step);
    lemma_link_flags(kind, 1);
    lemma_link_flags(kind, 2);
    lemma_link_flags(kind, 3);
    let iova = 0x1000 * n;
    let root = level4 as int;
    assert(iova / 0x80_0000_0000 % 512 == path_index(4, n) && iova / 0x4000_0000 % 512
        == path_index(3, n) && iova / 0x20_0000 % 512 == path_index(2, n) && iova / 0x1000 % 512
        == path_index(1, n));
    lemma_path(o[root], 4, tree, n);
    let third = with_child(
        m,
        a,
        entry_at(level4, path_index(4, n)),
        ENTRY_ADDRESS,
        dma_link_flags(kind, 3),
    );
    let o3 = lemma_link(m, a, o, c, root, path_index(4, n), dma_link_flags(kind, 3));
    if let Ok(level3) = third.result {
        lemma_path(o3[level3 as int], 3, tree, n);
        let second = with_child(
            third.memory,
            third.arena,
            entry_at(level3, path_index(3, n)),
            ENTRY_ADDRESS,
            dma_link_flags(kind, 2),
        );
        let o2 = lemma_link(
            third.memory,
            third.arena,
            o3,
            c,
            level3 as int,
            path_index(3, n),
            dma_link_flags(kind, 2),
        );
        lemma_edits(
            m,
            a,
            o,
            third.memory,
            third.arena,
            o3,
            second.memory,
            second.arena,
            o2,
            c,
        );
        if let Ok(level2) = second.result {
            lemma_path(o2[level2 as int], 2, tree, n);
            lemma_follow(second.memory, second.arena, o2, c, level2 as int, path_index(2, n));
            let first = with_child(
                second.memory,
                second.arena,
                entry_at(level2, path_index(2, n)),
                ENTRY_ADDRESS,
                dma_link_flags(kind, 1),
            );
            let o1 = lemma_link(
                second.memory,
                second.arena,
                o2,
                c,
                level2 as int,
                path_index(2, n),
                dma_link_flags(kind, 1),
            );
            lemma_edits(
                m,
                a,
                o,
                second.memory,
                second.arena,
                o2,
                first.memory,
                first.arena,
                o1,
                c,
            );
            if let Ok(level1) = first.result {
                lemma_path(o1[level1 as int], 1, tree, n);
                let value = (host_base + iova) as u64 | dma_leaf_flags(kind);
                let i = path_index(1, n);
                assert(entry_ok(first.memory, o1, c, level1 as int, i));
                assert(word(first.memory, level1 as int, i) == 0 || word(
                    first.memory,
                    level1 as int,
                    i,
                ) == value) by {
                    reveal(entry_ok);
                }
                lemma_leaf(first.memory, first.arena, o1, c, level1 as int, i, value);
                let m4 = first.memory.insert(level1 + 8 * i, value);
                lemma_edits(
                    m,
                    a,
                    o,
                    first.memory,
                    first.arena,
                    o1,
                    m4,
                    first.arena,
                    o1,
                    c,
                );
                lemma_nothing_masked(ENTRY_ADDRESS);
                assert(o3.dom().contains(root) && o2.dom().contains(root) && o1.dom().contains(
                    root,
                ));
                assert(o2.dom().contains(level3 as int) && o1.dom().contains(level3 as int));
                assert(o1.dom().contains(level2 as int));
                assert(word(second.memory, root, path_index(4, n)) == word(
                    third.memory,
                    root,
                    path_index(4, n),
                ));
                assert(word(first.memory, root, path_index(4, n)) == word(
                    second.memory,
                    root,
                    path_index(4, n),
                ));
                assert(word(m4, root, path_index(4, n)) == word(
                    first.memory,
                    root,
                    path_index(4, n),
                ));
                assert(word(first.memory, level3 as int, path_index(3, n)) == word(
                    second.memory,
                    level3 as int,
                    path_index(3, n),
                ));
                assert(word(m4, level3 as int, path_index(3, n)) == word(
                    first.memory,
                    level3 as int,
                    path_index(3, n),
                ));
                assert(word(m4, level2 as int, path_index(2, n)) == word(
                    first.memory,
                    level2 as int,
                    path_index(2, n),
                ));
                assert(word(m4, level1 as int, i) == value);
            }
            o1
        } else {
            o2
        }
    } else {
        o3
    }
}

/// The entry that maps the `n`-th page of a domain.
pub open spec fn domain_entry(kind: IommuKind, host_base: int, n: int) -> u64 {
    (host_base + 0x1000 * n) as u64 | dma_leaf_flags(kind)
}

spec fn domain_content(kind: IommuKind, host_base: int, pages: int) -> Content {
    Content {
        trees: |tree: int| true,
        small: |tree: int, n: int, e: u64|
            0 <= n < pages && e == domain_entry(kind, host_base, n),
        large: |tree: int, n: int, e: u64| false,
    }
}

/// Mapping the pages of a domain makes walks find them.
proof fn lemma_domain_pages(
    kind: IommuKind,
    m: Map<int, u64>,
    a: TableArena,
    o: Map<int, Place>,
    level4: u64,
    host_base: int,
    done: int,
    pages: int,
) -> (o1: Map<int, Place>)
    requires
        sound(m, a, o, domain_content(kind, host_base, pages)),
        leads_to(o, level4 as int, (Place { level: 4, tree: 0, prefix: 0 })),
        0 <= done <= pages <= WALK_PAGES,
        forall|n: int| 0 <= n < pages ==> #[trigger] domain_entry(kind, host_base, n) != 0,
        forall|n: int|
            0 <= n < done ==> #[trigger] walked(m, level4 as int, n) == Some(
                domain_entry(kind, host_base, n),
            ),
    ensures
        ({
            let edit = domain_mapped(
                kind,
                m,
                a,
                level4,
                host_base,
                0x1000 * done,
                0x1000 * pages,
            );
            &&& edits(
                m,
                a,
                o,
                edit.memory,
                edit.arena,
                o1,
                domain_content(kind, host_base, pages),
            )
            &&& edit.result is Ok ==> forall|n: int|
                0 <= n < pages ==> #[trigger] walked(edit.memory, level4 as int, n) == Some(
                    domain_entry(kind, host_base, n),
                )
        }),
    decreases pages - done,
{
    let c = domain_content(kind, host_base, pages);
    if done < pages {
        let step = domain_step(kind, m, a, level4, host_base, 0x1000 * done);
        assert(domain_entry(kind, host_base, done) != 0);
        let o1 = lemma_domain_step(kind, m, a, o, c, level4, 0, host_base, done);
        if step.result is Ok {
            assert forall|n: int| 0 <= n < done + 1 implies #[trigger] walked(
                step.memory,
                level4 as int,
                n,
            ) == Some(domain_entry(kind, host_base, n)) by {
                if n < done {
                    assert(walked(m, level4 as int, n) is Some);
                    lemma_walk_is_kept(m, step.memory, a, o, c, level4 as int, 0, n);
                }
            }
            assert(o1.dom().contains(level4 as int));
            let o2 = lemma_domain_pages(
                kind,
                step.memory,
                step.arena,
                o1,
                level4,
                host_base,
                done + 1,
                pages,
            );
            let edit = domain_mapped(
                kind,
                step.memory,
                step.arena,
                level4,
                host_base,
                0x1000 * (done + 1),
                0x1000 * pages,
            );
            lemma_edits(
                m,
                a,
                o,
                step.memory,
                step.arena,
                o1,
                edit.memory,
                edit.arena,
                o2,
                c,
            );
            o2
        } else {
            o1
        }
    } else {
        o
    }
}

/// A page of the arena that was taken and holds nothing.
pub open spec fn is_empty_table(m: Map<int, u64>, arena: TableArena, table: int) -> bool {
    &&& table % 0x1000 == 0
    &&& arena.base <= table < arena.page(arena.next_page as int)
    &&& forall|i: int| 0 <= i < 512 ==> #[trigger] word(m, table, i) == 0
}

proof fn lemma_empty_table(m: Map<int, u64>, a: TableArena, c: Content, table: int, p: Place)
    requires
        a.wf(m),
        is_empty_table(m, a, table),
        1 <= p.level <= 6,
    ensures
        sound(m, a, Map::empty().insert(table, p), c),
{
    let o = Map::empty().insert(table, p);
    assert forall|page: int, i: int| o.dom().contains(page) implies #[trigger] entry_ok(
        m,
        o,
        c,
        page,
        i,
    ) by {
        reveal(entry_ok);
        if 0 <= i < 512 {
            assert(word(m, table, i) == 0);
        }
        if 0 <= i < 256 {
            assert(word(m, table, 2 * i) == 0 && word(m, table, 2 * i + 1) == 0);
        }
    }
}

proof fn lemma_domain_entries(kind: IommuKind)
    ensures
        forall|address: u64| #[trigger] (address | dma_leaf_flags(kind)) != 0,
{
    assert forall|address: u64| #[trigger] (address | dma_leaf_flags(kind)) != 0 by {
        assert(address | 3 != 0 && address | (1u64 | 0x6000_0000_0000_0000) != 0) by (bit_vector);
    }
}

/// Once the memory of a domain is mapped from an empty table on, device address
/// zero leads to the first byte of that memory, each further page to the page
/// behind it, and every address past its size to nothing. Only the table and
/// pages that were free have been written.
pub proof fn law_device_addresses_translate_to_domain_memory(
    kind: IommuKind,
    m: Map<int, u64>,
    arena: TableArena,
    level4: u64,
    host_base: int,
    size: int,
)
    requires
        arena.wf(m),
        is_empty_table(m, arena, level4 as int),
        0 <= host_base,
        0 <= size,
        size % 0x1000 == 0,
        size <= 0x1000 * WALK_PAGES,
        host_base + size <= PHYSICAL_LIMIT,
        domain_mapped(kind, m, arena, level4, host_base, 0, size).result is Ok,
    ensures
        ({
            let after = domain_mapped(kind, m, arena, level4, host_base, 0, size);
            &&& forall|n: int|
                0 <= n < WALK_PAGES ==> #[trigger] walked(after.memory, level4 as int, n) == (
                if 0x1000 * n < size {
                    Some(domain_entry(kind, host_base, n))
                } else {
                    None
                })
            &&& forall|w: int|
                m.dom().contains(w) && !(level4 <= w < level4 + 0x1000) && w < arena.page(
                    arena.next_page as int,
                ) ==> #[trigger] after.memory[w] == m[w]
        }),
{
    let pages = size / 0x1000;
    let c = domain_content(kind, host_base, pages);
    let p = Place { level: 4, tree: 0, prefix: 0 };
    let o = Map::empty().insert(level4 as int, p);
    lemma_empty_table(m, arena, c, level4 as int, p);
    lemma_domain_entries(kind);
    let o1 = lemma_domain_pages(kind, m, arena, o, level4, host_base, 0, pages);
    let after = domain_mapped(kind, m, arena, level4, host_base, 0, size);
    assert forall|n: int| 0 <= n < WALK_PAGES implies #[trigger] walked(
        after.memory,
        level4 as int,
        n,
    ) == (if 0x1000 * n < size {
        Some(domain_entry(kind, host_base, n))
    } else {
        None
    }) by {
        assert(o1.dom().contains(level4 as int));
        lemma_walk_is_sound(after.memory, after.arena, o1, c, level4 as int, 0, n);
        if n < pages {
            assert(walked(after.memory, level4 as int, n) == Some(
                domain_entry(kind, host_base, n),
            ));
        }
    }
    assert forall|w: int|
        m.dom().contains(w) && !(level4 <= w < level4 + 0x1000) && w < arena.page(
            arena.next_page as int,
        ) implies #[trigger] after.memory[w] == m[w] by {
        if o1.dom().contains(page_of(w)) {
            assert(o.dom().contains(page_of(w)));
        }
    }
}

/// Mapping a large page keeps the tables sound.
proof fn lemma_large_leaf(
    m: Map<int, u64>,
    a: TableArena,
    o: Map<int, Place>,
    c: Content,
    page: int,
    i: int,
    value: u64,
)
    requires
        sound(m, a, o, c),
        o.dom().contains(page),
        o[page].level == 2,
        0 <= i < 512,
        value & LARGE_PAGE != 0,
        (c.large)(o[page].tree, o[page].prefix * 512 + i, value),
        is_foreign(m.dom(), (value & ENTRY_ADDRESS) as int),
        word(m, page, i) == 0 || word(m, page, i) == value,
    ensures
        sound(m.insert(page + 8 * i, value), a, o, c),
        kept(m, m.insert(page + 8 * i, value), o),
        confined(m, m.insert(page + 8 * i, value), o),
        m.insert(page + 8 * i, value).dom() == m.dom(),
{
    let m1 = m.insert(page + 8 * i, value);
    lemma_table_word(m, a, o, c, page, i);
    assert forall|j: int| #[trigger] entry_ok(m1, o, c, page, j) by {
        assert(entry_ok(m, o, c, page, j));
        if j == i {
            reveal(entry_ok);
        } else {
            lemma_same_entry(m, m1, o, o, c, page, j);
        }
    }
    lemma_page_edit(m, m1, a, o, c, page);
}

/// The entry that maps a page to itself.
pub open spec fn identity_entry(n: int) -> u64 {
    (0x1000 * n) as u64 | INTEL_READ_WRITE
}

/// The entry that maps a large page to itself.
pub open spec fn large_identity_entry(x: int) -> u64 {
    (0x20_0000 * x) as u64 | INTEL_LARGE_READ_WRITE
}

/// The page is mapped to itself, alone or as part of a large page.
pub open spec fn is_identity(entry: u64, n: int) -> bool {
    entry == identity_entry(n) || entry == large_identity_entry(n / 512)
}

/// From page `from` on, the tables may map pages to themselves only.
spec fn maps_identity(c: Content, tree: int, from: int) -> bool {
    &&& forall|n: int, e: u64|
        from <= n && #[trigger] (c.small)(tree, n, e) ==> e == identity_entry(n)
    &&& forall|x: int, e: u64| #[trigger]
        (c.large)(tree, x, e) ==> e == large_identity_entry(x) && x > 0
}

proof fn lemma_large_entry(x: int)
    requires
        0 <= x,
        0x20_0000 * x < PHYSICAL_LIMIT,
    ensures
        large_identity_entry(x) & LARGE_PAGE != 0,
        large_identity_entry(x) & ENTRY_ADDRESS == 0x20_0000 * x,
        identity_entry(512 * x) != 0,
{
    let address = (0x20_0000 * x) as u64;
    assert(0x83u64 & 0x000f_ffff_ffff_f000 == 0 && 0x83u64 & 0x80 != 0 && address | 3 != 0)
        by (bit_vector);
    lemma_entry(address, 0x83);
}

proof fn lemma_small_entry(n: int)
    ensures
        identity_entry(n) != 0,
{
    let address = (0x1000 * n) as u64;
    assert(address | 3 != 0) by (bit_vector);
}

/// The pages of a large page share all tables but the last.
proof fn lemma_shared_path(n: int, j: int)
    requires
        0 <= n,
        n % 512 == 0,
        0 <= j < 512,
    ensures
        path_index(4, n + j) == path_index(4, n),
        path_index(3, n + j) == path_index(3, n),
        path_index(2, n + j) == path_index(2, n),
        (n + j) / 512 == n / 512,
{
    assert((n + j) / 512 == n / 512);
    lemma_div_denominator(n, 512, 512);
    lemma_div_denominator(n + j, 512, 512);
    lemma_div_denominator(n, 512, 0x4_0000);
    lemma_div_denominator(n + j, 512, 0x4_0000);
}

/// What a step of an identity mapping does once the upper tables are there.
#[verifier::spinoff_prover]
proof fn lemma_identity_leaf(
    m: Map<int, u64>,
    a: TableArena,
    o: Map<int, Place>,
    c: Content,
    root: int,
    level3: u64,
    level2: u64,
    tree: int,
    n: int,
    end: int,
) -> (o1: Map<int, Place>)
    requires
        sound(m, a, o, c),
        o.dom().contains(root),
        o.dom().contains(level3 as int),
        o.dom().contains(level2 as int),
        on_path(o[level2 as int], 2, tree, n),
        word(m, root, path_index(4, n)) & ENTRY_ADDRESS == level3,
        word(m, level3 as int, path_index(3, n)) & ENTRY_ADDRESS == level2,
        level3 != 0,
        level2 != 0,
        0 <= n < end <= WALK_PAGES,
        maps_identity(c, tree, n),
        (c.small)(tree, n, identity_entry(n)),
        n % 512 == 0 && end - n >= 512 ==> {
            &&& (c.large)(tree, n / 512, large_identity_entry(n / 512))
            &&& is_foreign(m.dom(), 0x1000 * n)
        },
    ensures
        ({
            let edit = identity_leaf(m, a, level2, 0x1000 * n, 0x1000 * end);
            &&& edits(m, a, o, edit.memory, edit.arena, o1, c)
            &&& edit.result matches Ok(size) ==> {
                &&& size == 0x1000 || (size == 0x20_0000 && n + 512 <= end && n % 512 == 0)
                &&& forall|k: int|
                    n <= k < n + size / 0x1000 ==> #[trigger] walked(
                        edit.memory,
                        root,
                        k,
                    ) is Some
            }
        }),
{
    reveal(identity_leaf);
    lemma_link_flags(IommuKind::IntelVtd, 1);
    lemma_nothing_masked(ENTRY_ADDRESS);
    let address = 0x1000 * n;
    let page = level2 as int;
    let i = path_index(2, n);
    let at = entry_at(level2, i);
    let edit = identity_leaf(m, a, level2, address, 0x1000 * end);
    assert(address / 0x20_0000 % 512 == i && address / 0x1000 % 512 == path_index(1, n));
    assert(0x20_0000 * (n / 512) <= address);
    lemma_path(o[page], 2, tree, n);
    lemma_table_word(m, a, o, c, page, i);
    lemma_follow(m, a, o, c, page, i);
    lemma_large_entry(n / 512);
    lemma_small_entry(n);
    let current = word(m, page, i);
    let large = address % 0x20_0000 == 0 && 0x1000 * end - address >= 0x20_0000;
    if large && (current == 0 || current & LARGE_PAGE != 0) {
        assert(n % 512 == 0);
        let value = large_identity_entry(n / 512);
        lemma_large_leaf(m, a, o, c, page, i, value);
        assert(0x20_0000 * (n / 512) == address);
        let m1 = m.insert(at, value);
        assert(word(m1, root, path_index(4, n)) == word(m, root, path_index(4, n)));
        assert(word(m1, level3 as int, path_index(3, n)) == word(
            m,
            level3 as int,
            path_index(3, n),
        ));
        assert(word(m1, page, i) == value);
        assert forall|k: int| n <= k < n + 512 implies #[trigger] walked(m1, root, k) is Some by {
            lemma_shared_path(n, k - n);
        }
        o
    } else if current & LARGE_PAGE != 0 {
        // The entry maps a large page, and what it maps is not a table.
        let base = (current & ENTRY_ADDRESS) as int;
        let x = n / 512;
        assert(current == large_identity_entry(x) && x > 0);
        assert(base != 0);
        let leaf = base + 8 * path_index(1, n);
        assert(!m.dom().contains(leaf)) by {
            reveal(is_foreign);
        }
        o
    } else {
        let first = with_child(m, a, at, ENTRY_ADDRESS, INTEL_READ_WRITE);
        let o1 = lemma_link(m, a, o, c, page, i, INTEL_READ_WRITE);
        if let Ok(level1) = first.result {
            lemma_path(o1[level1 as int], 1, tree, n);
            let j = path_index(1, n);
            let value = identity_entry(n);
            assert(entry_ok(first.memory, o1, c, level1 as int, j));
            assert(word(first.memory, level1 as int, j) == 0 || word(
                first.memory,
                level1 as int,
                j,
            ) == value) by {
                reveal(entry_ok);
            }
            lemma_leaf(first.memory, first.arena, o1, c, level1 as int, j, value);
            let m1 = first.memory.insert(level1 + 8 * j, value);
            lemma_edits(m, a, o, first.memory, first.arena, o1, m1, first.arena, o1, c);
            assert(word(m1, root, path_index(4, n)) == word(m, root, path_index(4, n)));
            assert(word(m1, level3 as int, path_index(3, n)) == word(
                m,
                level3 as int,
                path_index(3, n),
            ));
            assert(o1.dom().contains(page));
            assert(word(m1, page, i) == word(first.memory, page, i));
            assert(word(m1, level1 as int, j) == value);
            assert(walked(m1, root, n) is Some);
            assert forall|k: int| n <= k < n + 1 implies #[trigger] walked(m1, root, k) is Some by {
                assert(k == n);
            }
        }
        o1
    }
}

/// A step of an identity mapping makes walks find what it maps.
#[verifier::spinoff_prover]
proof fn lemma_identity_step(
    m: Map<int, u64>,
    a: TableArena,
    o: Map<int, Place>,
    c: Content,
    level4: u64,
    tree: int,
    n: int,
    end: int,
) -> (o1: Map<int, Place>)
    requires
        sound(m, a, o, c),
        leads_to(o, level4 as int, (Place { level: 4, tree, prefix: 0 })),
        0 <= n < end <= WALK_PAGES,
        maps_identity(c, tree, n),
        (c.small)(tree, n, identity_entry(n)),
        n % 512 == 0 && end - n >= 512 ==> {
            &&& (c.large)(tree, n / 512, large_identity_entry(n / 512))
            &&& is_foreign(m.dom(), 0x1000 * n)
        },
    ensures
        ({
            let edit = identity_step(m, a, level4, 0x1000 * n, 0x1000 * end);
            &&& edits(m, a, o, edit.memory, edit.arena, o1, c)
            &&& edit.result matches Ok(size) ==> {
                &&& size == 0x1000 || (size == 0x20_0000 && n + 512 <= end && n % 512 == 0)
                &&& forall|k: int|
                    n <= k < n + size / 0x1000 ==> #[trigger] walked(
                        edit.memory,
                        level4 as int,
                        k,
                    ) is Some
            }
        }),
{
    reveal(identity_step);
    lemma_link_flags(IommuKind::IntelVtd, 1);
    let address = 0x1000 * n;
    let root = level4 as int;
    assert(address / 0x80_0000_0000 % 512 == path_index(4, n) && address / 0x4000_0000 % 512
        == path_index(3, n) && address / 0x20_0000 % 512 == path_index(2, n) && address / 0x1000
        % 512 == path_index(1, n));
    lemma_path(o[root], 4, tree, n);
    let third = with_child(
        m,
        a,
        entry_at(level4, path_index(4, n)),
        ENTRY_ADDRESS,
        INTEL_READ_WRITE,
    );
    let o3 = lemma_link(m, a, o, c, root, path_index(4, n), INTEL_READ_WRITE);
    if let Ok(level3) = third.result {
        lemma_path(o3[level3 as int], 3, tree, n);
        let second = with_child(
            third.memory,
            third.arena,
            entry_at(level3, path_index(3, n)),
            ENTRY_ADDRESS,
            INTEL_READ_WRITE,
        );
        let o2 = lemma_link(
            third.memory,
            third.arena,
            o3,
            c,
            level3 as int,
            path_index(3, n),
            INTEL_READ_WRITE,
        );
        lemma_edits(
            m,
            a,
            o,
            third.memory,
            third.arena,
            o3,
            second.memory,
            second.arena,
            o2,
            c,
        );
        if let Ok(level2) = second.result {
            lemma_nothing_masked(ENTRY_ADDRESS);
            assert(o3.dom().contains(root) && o2.dom().contains(root));
            assert(o2.dom().contains(level3 as int));
            assert(word(second.memory, root, path_index(4, n)) == word(
                third.memory,
                root,
                path_index(4, n),
            ));
            let o1 = lemma_identity_leaf(
                second.memory,
                second.arena,
                o2,
                c,
                root,
                level3,
                level2,
                tree,
                n,
                end,
            );
            let last = identity_leaf(second.memory, second.arena, level2, address, 0x1000 * end);
            lemma_edits(
                m,
                a,
                o,
                second.memory,
                second.arena,
                o2,
                last.memory,
                last.arena,
                o1,
                c,
            );
            o1
        } else {
            o2
        }
    } else {
        o3
    }
}

/// An identity mapping makes walks find every page of its range.
proof fn lemma_identity_range(
    m: Map<int, u64>,
    a: TableArena,
    o: Map<int, Place>,
    c: Content,
    level4: u64,
    tree: int,
    start: int,
    done: int,
    end: int,
) -> (o1: Map<int, Place>)
    requires
        sound(m, a, o, c),
        leads_to(o, level4 as int, (Place { level: 4, tree, prefix: 0 })),
        0 <= start <= done <= end <= WALK_PAGES,
        maps_identity(c, tree, start),
        forall|n: int| done <= n < end ==> #[trigger] (c.small)(tree, n, identity_entry(n)),
        forall|n: int|
            #![trigger large_identity_entry(n / 512)]
            done <= n && n + 512 <= end && n % 512 == 0 ==> {
                &&& (c.large)(tree, n / 512, large_identity_entry(n / 512))
                &&& is_foreign(m.dom(), 0x1000 * n)
            },
        forall|n: int| start <= n < done ==> #[trigger] walked(m, level4 as int, n) is Some,
    ensures
        ({
            let edit = identity_mapped(m, a, level4, 0x1000 * done, 0x1000 * end);
            &&& edits(m, a, o, edit.memory, edit.arena, o1, c)
            &&& edit.result is Ok ==> forall|n: int|
                start <= n < end ==> #[trigger] walked(edit.memory, level4 as int, n) is Some
        }),
    decreases end - done,
{
    if done < end {
        let step = identity_step(m, a, level4, 0x1000 * done, 0x1000 * end);
        assert((c.small)(tree, done, identity_entry(done)));
        let x = large_identity_entry(done / 512);
        let o1 = lemma_identity_step(m, a, o, c, level4, tree, done, end);
        if let Ok(size) = step.result {
            let next = done + size / 0x1000;
            assert forall|n: int| start <= n < next implies #[trigger] walked(
                step.memory,
                level4 as int,
                n,
            ) is Some by {
                if n < done {
                    assert(walked(m, level4 as int, n) is Some);
                    lemma_walk_is_kept(m, step.memory, a, o, c, level4 as int, tree, n);
                }
            }
            assert(o1.dom().contains(level4 as int));
            let o2 = lemma_identity_range(
                step.memory,
                step.arena,
                o1,
                c,
                level4,
                tree,
                start,
                next,
                end,
            );
            let edit = identity_mapped(
                step.memory,
                step.arena,
                level4,
                0x1000 * next,
                0x1000 * end,
            );
            lemma_edits(
                m,
                a,
                o,
                step.memory,
                step.arena,
                o1,
                edit.memory,
                edit.arena,
                o2,
                c,
            );
            o2
        } else {
            o1
        }
    } else {
        o
    }
}

/// The second-level root that a unit finds for a requester.
pub open spec fn context_root(m: Map<int, u64>, root_table: u64, requester: u16) -> Option<int> {
    let table = m[context_at(root_table, requester as int / 256)] & CONTEXT_ADDRESS;
    let low = m[context_at(table, requester as int % 256)];
    if table == 0 || low == 0 {
        None
    } else {
        Some((low & CONTEXT_ADDRESS) as int)
    }
}

/// The entry that a unit finds for the `n`-th page of a requester's addresses.
pub open spec fn reached(m: Map<int, u64>, root_table: u64, requester: u16, n: int) -> Option<u64> {
    match context_root(m, root_table, requester) {
        None => None,
        Some(root) => walked(m, root, n),
    }
}

/// Firmware reserved memory for the requester.
pub open spec fn is_reserved_for(mapping: ReservedMapping, requester: int) -> bool {
    mapping.segment == 0 && mapping.requester == requester
}

/// Some reserved range of the requester holds all of `start..end`.
pub open spec fn is_reserved(
    mappings: Seq<ReservedMapping>,
    requester: int,
    start: int,
    end: int,
) -> bool {
    exists|i: int|
        #![trigger mappings[i]]
        0 <= i < mappings.len() && is_reserved_for(mappings[i], requester) && mappings[i].base
            <= start && end <= mappings[i].limit + 1
}

spec fn reserved_content(mappings: Seq<ReservedMapping>) -> Content {
    Content {
        trees: |tree: int|
            exists|i: int|
                0 <= i < mappings.len() && is_reserved_for(#[trigger] mappings[i], tree),
        small: |tree: int, n: int, e: u64|
            e == identity_entry(n) && is_reserved(mappings, tree, 0x1000 * n, 0x1000 * n + 0x1000),
        large: |tree: int, x: int, e: u64|
            x > 0 && e == large_identity_entry(x) && is_reserved(
                mappings,
                tree,
                0x20_0000 * x,
                0x20_0000 * x + 0x20_0000,
            ),
    }
}

/// A reserved range inside the walked address space, none of whose memory is
/// owned, and which does not hold the large page at address zero.
pub open spec fn is_plain_range(m: Map<int, u64>, mapping: ReservedMapping) -> bool {
    &&& mapping.limit < 0x1000 * WALK_PAGES
    &&& mapping.base > 0 || mapping.limit < 0x1f_ffff
    &&& forall|w: int| mapping.base <= w <= mapping.limit ==> !#[trigger] m.dom().contains(w)
}

/// What a unit reaches for a requester, it still reaches.
proof fn lemma_reach_is_kept(
    m: Map<int, u64>,
    m1: Map<int, u64>,
    a: TableArena,
    o: Map<int, Place>,
    c: Content,
    root_table: u64,
    requester: u16,
    n: int,
)
    requires
        sound(m, a, o, c),
        leads_to(o, root_table as int, (Place { level: 6, tree: 0, prefix: 0 })),
        kept(m, m1, o),
        0 <= n < WALK_PAGES,
        reached(m, root_table, requester, n) is Some,
    ensures
        reached(m1, root_table, requester, n) == reached(m, root_table, requester, n),
{
    let bus = requester as int / 256;
    let function = requester as int % 256;
    let root = root_table as int;
    assert(word(m, root, 2 * bus) == m[context_at(root_table, bus)]);
    lemma_nothing_masked(CONTEXT_ADDRESS);
    lemma_follow(m, a, o, c, root, bus);
    assert(word(m1, root, 2 * bus) == word(m, root, 2 * bus));
    let table = (word(m, root, 2 * bus) & CONTEXT_ADDRESS) as int;
    assert(word(m, table, 2 * function) == m[context_at(table as u64, function)]);
    lemma_follow(m, a, o, c, table, function);
    assert(word(m1, table, 2 * function) == word(m, table, 2 * function));
    let level4 = (word(m, table, 2 * function) & CONTEXT_ADDRESS) as int;
    lemma_walk_is_kept(m, m1, a, o, c, level4, requester as int, n);
}

/// What a unit reaches for a requester is what the tables may hold.
proof fn lemma_reach_is_sound(
    m: Map<int, u64>,
    a: TableArena,
    o: Map<int, Place>,
    c: Content,
    root_table: u64,
    requester: u16,
    n: int,
)
    requires
        sound(m, a, o, c),
        leads_to(o, root_table as int, (Place { level: 6, tree: 0, prefix: 0 })),
        0 <= n < WALK_PAGES,
    ensures
        context_root(m, root_table, requester) is Some ==> (c.trees)(requester as int),
        reached(m, root_table, requester, n) matches Some(e) ==> {
            ||| (c.small)(requester as int, n, e)
            ||| (c.large)(requester as int, n / 0x200, e)
        },
{
    let bus = requester as int / 256;
    let function = requester as int % 256;
    let root = root_table as int;
    assert(word(m, root, 2 * bus) == m[context_at(root_table, bus)]);
    lemma_nothing_masked(CONTEXT_ADDRESS);
    lemma_follow(m, a, o, c, root, bus);
    if context_root(m, root_table, requester) is Some {
        let table = (word(m, root, 2 * bus) & CONTEXT_ADDRESS) as int;
        assert(word(m, table, 2 * function) == m[context_at(table as u64, function)]);
        lemma_follow(m, a, o, c, table, function);
        let level4 = (word(m, table, 2 * function) & CONTEXT_ADDRESS) as int;
        lemma_walk_is_sound(m, a, o, c, level4, requester as int, n);
    }
}

/// Storing a context entry in an empty place keeps the tables sound.
proof fn lemma_new_context(
    m: Map<int, u64>,
    a: TableArena,
    o: Map<int, Place>,
    c: Content,
    page: int,
    i: int,
    low: u64,
    high: u64,
)
    requires
        sound(m, a, o, c),
        o.dom().contains(page),
        o[page].level == 5,
        0 <= i < 256,
        (c.trees)(below(o[page], i).tree),
        word(m, page, 2 * i) == 0,
        low != 0,
        leads_to(o, (low & CONTEXT_ADDRESS) as int, below(o[page], i)),
    ensures
        ({
            let m1 = m.insert(page + 16 * i + 8, high).insert(page + 16 * i, low);
            &&& sound(m1, a, o, c)
            &&& kept(m, m1, o)
            &&& confined(m, m1, o)
            &&& m1.dom() == m.dom()
            &&& word(m1, page, 2 * i) == low
        }),
{
    let m1 = m.insert(page + 16 * i + 8, high).insert(page + 16 * i, low);
    lemma_table_word(m, a, o, c, page, 2 * i);
    lemma_table_word(m, a, o, c, page, 2 * i + 1);
    assert(m1.dom() =~= m.dom());
    assert(word(m1, page, 2 * i) == low);
    assert(word(m1, page, 2 * i + 1) == high);
    assert(entry_ok(m, o, c, page, i));
    assert(word(m, page, 2 * i + 1) == 0) by {
        reveal(entry_ok);
    }
    assert forall|j: int| #[trigger] entry_ok(m1, o, c, page, j) by {
        assert(entry_ok(m, o, c, page, j));
        if j == i {
            reveal(entry_ok);
        } else {
            lemma_same_entry(m, m1, o, o, c, page, j);
        }
    }
    assert forall|k: int| 0 <= k < 512 && word(m, page, k) != 0 implies #[trigger] word(
        m1,
        page,
        k,
    ) == word(m, page, k) by {
        assert(k != 2 * i && k != 2 * i + 1);
    }
    lemma_page_edit(m, m1, a, o, c, page);
}

/// Finding or making the context of a requester keeps the tables sound.
#[verifier::spinoff_prover]
proof fn lemma_reserved_context(
    m: Map<int, u64>,
    a: TableArena,
    o: Map<int, Place>,
    c: Content,
    table: u64,
    i: int,
) -> (o1: Map<int, Place>)
    requires
        sound(m, a, o, c),
        o.dom().contains(table as int),
        o[table as int].level == 5,
        0 <= i < 256,
        (c.trees)(below(o[table as int], i).tree),
    ensures
        ({
            let edit = with_reserved_context(m, a, table, i);
            &&& edits(m, a, o, edit.memory, edit.arena, o1, c)
            &&& edit.result matches Ok(root) ==> {
                &&& leads_to(o1, root as int, below(o[table as int], i))
                &&& word(edit.memory, table as int, 2 * i) != 0
                &&& word(edit.memory, table as int, 2 * i) & CONTEXT_ADDRESS == root
            }
        }),
{
    reveal(with_reserved_context);
    let page = table as int;
    let edit = with_reserved_context(m, a, table, i);
    lemma_table_word(m, a, o, c, page, 2 * i);
    lemma_table_word(m, a, o, c, page, 2 * i + 1);
    lemma_follow(m, a, o, c, page, i);
    lemma_nothing_masked(CONTEXT_ADDRESS);
    assert(word(m, page, 2 * i) == m[context_at(table, i)]);
    if m[context_at(table, i)] & CONTEXT_ADDRESS != 0 {
        o
    } else if a.next_page < a.page_count {
        let root = a.page(a.next_page as int);
        let fresh = allocated(m, a);
        let p = below(o[page], i);
        let o1 = o.insert(root, p);
        lemma_fresh(m, a, o, c, p);
        lemma_present_bit();
        lemma_link_value(root as u64, INTEL_PRESENT, CONTEXT_ADDRESS);
        assert(word(fresh.memory, page, 2 * i) == word(m, page, 2 * i));
        assert(o1.dom().contains(page));
        lemma_new_context(
            fresh.memory,
            fresh.arena,
            o1,
            c,
            page,
            i,
            root as u64 | INTEL_PRESENT,
            intel_context_high(INTEL_RESERVED_DOMAIN),
        );
        assert forall|q: int, j: int|
            o.dom().contains(q) && 0 <= j < 512 && word(m, q, j) != 0 implies #[trigger] word(
            edit.memory,
            q,
            j,
        ) == word(m, q, j) by {
            assert(word(fresh.memory, q, j) == word(m, q, j));
            assert(o1.dom().contains(q));
        }
        assert forall|w: int| m.dom().contains(w) && !o1.dom().contains(
            page_of(w),
        ) implies #[trigger] edit.memory[w] == m[w] by {
            if root <= w < root + 0x1000 {
                assert(page_of(w) == root);
            }
            assert(fresh.memory[w] == m[w]);
        }
        o1
    } else {
        o
    }
}

/// Adding a reserved range lets its requester reach it.
#[verifier::spinoff_prover]
proof fn lemma_reserved_range(
    m: Map<int, u64>,
    a: TableArena,
    o: Map<int, Place>,
    root_table: u64,
    mappings: Seq<ReservedMapping>,
    i: int,
) -> (o1: Map<int, Place>)
    requires
        sound(m, a, o, reserved_content(mappings)),
        leads_to(o, root_table as int, (Place { level: 6, tree: 0, prefix: 0 })),
        0 <= i < mappings.len(),
        mappings[i].segment == 0,
        is_plain_range(m, mappings[i]),
    ensures
        ({
            let edit = with_reserved_range(m, a, root_table, mappings[i]);
            &&& edits(m, a, o, edit.memory, edit.arena, o1, reserved_content(mappings))
            &&& edit.result is Ok ==> forall|n: int|
                mappings[i].base <= 0x1000 * n <= mappings[i].limit ==> #[trigger] reached(
                    edit.memory,
                    root_table,
                    mappings[i].requester,
                    n,
                ) is Some
        }),
{
    let c = reserved_content(mappings);
    let mapping = mappings[i];
    let requester = mapping.requester;
    let bus = requester as int / 256;
    let function = requester as int % 256;
    let page = root_table as int;
    lemma_present_bit();
    let first = with_root_entry(m, a, root_table, bus);
    let o1 = lemma_link(m, a, o, c, page, bus, INTEL_PRESENT);
    if !is_reserved_range(mapping) {
        o
    } else if let Ok(table) = first.result {
        assert(is_reserved_for(mappings[i], requester as int));
        assert((c.trees)(requester as int));
        assert(below(o1[table as int], function).tree == requester as int);
        let second = with_reserved_context(first.memory, first.arena, table, function);
        let o2 = lemma_reserved_context(first.memory, first.arena, o1, c, table, function);
        lemma_edits(m, a, o, first.memory, first.arena, o1, second.memory, second.arena, o2, c);
        if let Ok(level4) = second.result {
            let start = mapping.base as int / 0x1000;
            let end = (mapping.limit + 1) / 0x1000;
            lemma_reserved_entries(second.memory, mappings, i, start, end);
            let last = identity_mapped(
                second.memory,
                second.arena,
                level4,
                mapping.base as int,
                mapping.limit + 1,
            );
            let o3 = lemma_identity_range(
                second.memory,
                second.arena,
                o2,
                c,
                level4,
                requester as int,
                start,
                start,
                end,
            );
            lemma_edits(m, a, o, second.memory, second.arena, o2, last.memory, last.arena, o3, c);
            if last.result is Ok {
                lemma_nothing_masked(CONTEXT_ADDRESS);
                assert(o1.dom().contains(page) && o2.dom().contains(page));
                assert(o2.dom().contains(table as int));
                assert(word(first.memory, page, 2 * bus) != 0);
                assert(word(second.memory, page, 2 * bus) == word(first.memory, page, 2 * bus));
                assert(word(last.memory, page, 2 * bus) == word(second.memory, page, 2 * bus));
                assert(word(last.memory, table as int, 2 * function) == word(
                    second.memory,
                    table as int,
                    2 * function,
                ));
                assert(word(last.memory, page, 2 * bus) == last.memory[context_at(
                    root_table,
                    bus,
                )]);
                assert(word(last.memory, table as int, 2 * function) == last.memory[context_at(
                    table,
                    function,
                )]);
                assert(context_root(last.memory, root_table, requester) == Some(level4 as int));
                assert forall|n: int|
                    mapping.base <= 0x1000 * n <= mapping.limit implies #[trigger] reached(
                    last.memory,
                    root_table,
                    requester,
                    n,
                ) is Some by {
                    assert(start <= n < end);
                    assert(walked(last.memory, level4 as int, n) is Some);
                }
            }
            o3
        } else {
            o2
        }
    } else {
        o1
    }
}

/// A plain range may be mapped to itself.
proof fn lemma_reserved_entries(
    m: Map<int, u64>,
    mappings: Seq<ReservedMapping>,
    i: int,
    start: int,
    end: int,
)
    requires
        0 <= i < mappings.len(),
        mappings[i].segment == 0,
        is_plain_range(m, mappings[i]),
        is_reserved_range(mappings[i]),
        start == mappings[i].base as int / 0x1000,
        end == (mappings[i].limit + 1) / 0x1000,
    ensures
        ({
            let c = reserved_content(mappings);
            let tree = mappings[i].requester as int;
            &&& 0 <= start <= end <= WALK_PAGES
            &&& 0x1000 * start == mappings[i].base
            &&& 0x1000 * end == mappings[i].limit + 1
            &&& maps_identity(c, tree, start)
            &&& forall|n: int| start <= n < end ==> #[trigger] (c.small)(tree, n, identity_entry(n))
            &&& forall|n: int|
                #![trigger large_identity_entry(n / 512)]
                start <= n && n + 512 <= end && n % 512 == 0 ==> {
                    &&& (c.large)(tree, n / 512, large_identity_entry(n / 512))
                    &&& is_foreign(m.dom(), 0x1000 * n)
                }
        }),
{
    let c = reserved_content(mappings);
    let tree = mappings[i].requester as int;
    assert forall|n: int| start <= n < end implies #[trigger] (c.small)(
        tree,
        n,
        identity_entry(n),
    ) by {
        assert(mappings[i].base <= 0x1000 * n && 0x1000 * n + 0x1000 <= mappings[i].limit + 1);
    }
    assert forall|n: int|
        #![trigger large_identity_entry(n / 512)]
        start <= n && n + 512 <= end && n % 512 == 0 implies {
        &&& (c.large)(tree, n / 512, large_identity_entry(n / 512))
        &&& is_foreign(m.dom(), 0x1000 * n)
    } by {
        reveal(is_foreign);
        assert(0x20_0000 * (n / 512) == 0x1000 * n);
        assert(n / 512 > 0);
        assert(mappings[i].base <= 0x1000 * n && 0x1000 * n + 0x20_0000 <= mappings[i].limit + 1);
    }
}

/// Adding the reserved ranges lets each requester reach its own.
proof fn lemma_reserved_ranges(
    m: Map<int, u64>,
    a: TableArena,
    o: Map<int, Place>,
    root_table: u64,
    mappings: Seq<ReservedMapping>,
    k: int,
) -> (o1: Map<int, Place>)
    requires
        sound(m, a, o, reserved_content(mappings)),
        leads_to(o, root_table as int, (Place { level: 6, tree: 0, prefix: 0 })),
        0 <= k <= mappings.len(),
        forall|i: int|
            0 <= i < mappings.len() && (#[trigger] mappings[i]).segment == 0 ==> is_plain_range(
                m,
                mappings[i],
            ),
    ensures
        ({
            let edit = with_reserved_ranges(m, a, root_table, mappings, k);
            &&& edits(m, a, o, edit.memory, edit.arena, o1, reserved_content(mappings))
            &&& edit.result is Ok ==> forall|i: int, n: int|
                #![trigger reached(edit.memory, root_table, mappings[i].requester, n)]
                0 <= i < k && mappings[i].segment == 0 && mappings[i].base <= 0x1000 * n
                    <= mappings[i].limit ==> reached(
                    edit.memory,
                    root_table,
                    mappings[i].requester,
                    n,
                ) is Some
        }),
    decreases k,
{
    let c = reserved_content(mappings);
    if k == 0 {
        o
    } else {
        let o1 = lemma_reserved_ranges(m, a, o, root_table, mappings, k - 1);
        let before = with_reserved_ranges(m, a, root_table, mappings, k - 1);
        if before.result is Err || mappings[k - 1].segment != 0 {
            o1
        } else {
            assert(o1.dom().contains(root_table as int));
            assert(is_plain_range(m, mappings[k - 1]));
            let o2 = lemma_reserved_range(
                before.memory,
                before.arena,
                o1,
                root_table,
                mappings,
                k - 1,
            );
            let edit = with_reserved_range(
                before.memory,
                before.arena,
                root_table,
                mappings[k - 1],
            );
            lemma_edits(
                m,
                a,
                o,
                before.memory,
                before.arena,
                o1,
                edit.memory,
                edit.arena,
                o2,
                c,
            );
            if edit.result is Ok {
                assert forall|i: int, n: int|
                    #![trigger reached(edit.memory, root_table, mappings[i].requester, n)]
                    0 <= i < k && mappings[i].segment == 0 && mappings[i].base <= 0x1000 * n
                        <= mappings[i].limit implies reached(
                    edit.memory,
                    root_table,
                    mappings[i].requester,
                    n,
                ) is Some by {
                    if i < k - 1 {
                        let requester = mappings[i].requester;
                        assert(reached(before.memory, root_table, mappings[i].requester, n) is Some);
                        assert(is_plain_range(m, mappings[i]));
                        lemma_reach_is_kept(
                            before.memory,
                            edit.memory,
                            before.arena,
                            o1,
                            c,
                            root_table,
                            requester,
                            n,
                        );
                    }
                }
            }
            o2
        }
    }
}

/// Tables that were built from an empty root table deny everything that firmware
/// did not reserve: a requester has a context only if some range is reserved for
/// it, it reaches a page only if that page is reserved for it, and each page it
/// reaches is mapped to itself. Every reserved page is reached.
pub proof fn law_only_reserved_memory_is_reached(
    m: Map<int, u64>,
    root_table: u64,
    mappings: Seq<ReservedMapping>,
    requester: u16,
    n: int,
)
    requires
        intel_arena(root_table).wf(m),
        is_empty_table(m, intel_arena(root_table), root_table as int),
        forall|i: int|
            0 <= i < mappings.len() && (#[trigger] mappings[i]).segment == 0 ==> is_plain_range(
                m,
                mappings[i],
            ),
        with_reserved_ranges(
            m,
            intel_arena(root_table),
            root_table,
            mappings,
            mappings.len() as int,
        ).result is Ok,
        0 <= n < WALK_PAGES,
    ensures
        ({
            let after = with_reserved_ranges(
                m,
                intel_arena(root_table),
                root_table,
                mappings,
                mappings.len() as int,
            ).memory;
            &&& context_root(after, root_table, requester) is Some ==> exists|i: int|
                0 <= i < mappings.len() && is_reserved_for(
                    #[trigger] mappings[i],
                    requester as int,
                )
            &&& reached(after, root_table, requester, n) is Some <==> is_reserved(
                mappings,
                requester as int,
                0x1000 * n,
                0x1000 * n + 0x1000,
            )
            &&& reached(after, root_table, requester, n) matches Some(e) ==> is_identity(e, n)
        }),
{
    let a = intel_arena(root_table);
    let c = reserved_content(mappings);
    let p = Place { level: 6, tree: 0, prefix: 0 };
    let o = Map::empty().insert(root_table as int, p);
    let k = mappings.len() as int;
    lemma_empty_table(m, a, c, root_table as int, p);
    let o1 = lemma_reserved_ranges(m, a, o, root_table, mappings, k);
    let after = with_reserved_ranges(m, a, root_table, mappings, k);
    assert(o1.dom().contains(root_table as int));
    lemma_reach_is_sound(after.memory, after.arena, o1, c, root_table, requester, n);
    if let Some(e) = reached(after.memory, root_table, requester, n) {
        if (c.large)(requester as int, n / 0x200, e) {
            let x = n / 0x200;
            let i = choose|i: int|
                #![trigger mappings[i]]
                0 <= i < mappings.len() && is_reserved_for(mappings[i], requester as int)
                    && mappings[i].base <= 0x20_0000 * x && 0x20_0000 * x + 0x20_0000
                    <= mappings[i].limit + 1;
            assert(mappings[i].base <= 0x1000 * n && 0x1000 * n + 0x1000 <= mappings[i].limit + 1);
        }
    }
    if is_reserved(mappings, requester as int, 0x1000 * n, 0x1000 * n + 0x1000) {
        let i = choose|i: int|
            #![trigger mappings[i]]
            0 <= i < mappings.len() && is_reserved_for(mappings[i], requester as int)
                && mappings[i].base <= 0x1000 * n && 0x1000 * n + 0x1000 <= mappings[i].limit + 1;
        assert(reached(after.memory, root_table, mappings[i].requester, n) is Some);
    }
}

} // verus!
