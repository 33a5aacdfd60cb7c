//! What a requester reaches once it is assigned to a domain.

use vstd::prelude::*;

use super::{
    context_root, domain_content, domain_entry, edits, entry_ok, identity_entry, is_empty_table,
    is_foreign, is_identity, is_plain_range, is_taken, large_identity_entry, leads_to,
    lemma_domain_entries, lemma_domain_pages, lemma_edits, lemma_empty_table, lemma_follow,
    lemma_identity_range, lemma_link_value, lemma_nothing_masked, lemma_path,
    lemma_present_bit, lemma_reserved_ranges, lemma_table_word, lemma_walk_is_kept, lemma_walk_is_sound,
    maps_identity, page_of, path_index, reached, reserved_content, sound, walked, word, Content,
    Place, WALK_PAGES,
};
use crate::iommu::remapper::{
    concerns, domain_arena, domain_ensured, find_domain, is_assignable, ranges_preserved,
    unit_attached, unit_prepared, unit_wf, RemapperView, RuntimeView,
};
use crate::iommu::tables::{
    allocated, context_at, device_at, device_entry, domain_mapped, intel_arena, intel_attached,
    reserved_identity, with_device_entry, with_reserved_ranges, with_root_entry, TableArena,
    AMD_DTE_VALID, CONTEXT_ADDRESS, ENTRY_ADDRESS, INTEL_PRESENT, LARGE_PAGE, PHYSICAL_LIMIT,
};
use crate::iommu::{IommuKind, ReservedMapping};
use crate::physical::covers;

verus! {

/// Some reserved range of the requester holds all of `start..end`.
pub open spec fn is_own(
    mappings: Seq<ReservedMapping>,
    segment: u16,
    requester: u16,
    start: int,
    end: int,
) -> bool {
    exists|i: int|
        #![trigger mappings[i]]
        0 <= i < mappings.len() && concerns(mappings[i], segment, requester) && mappings[i].base
            <= start && end <= mappings[i].limit + 1
}

/// The memory of a domain from address zero on, and behind it the reserved ranges of a
/// requester.
spec fn assigned_content(
    host_base: int,
    pages: int,
    mappings: Seq<ReservedMapping>,
    segment: u16,
    requester: u16,
) -> Content {
    Content {
        trees: |tree: int| true,
        small: |tree: int, n: int, e: u64|
            {
                ||| 0 <= n < pages && e == domain_entry(IommuKind::IntelVtd, host_base, n)
                ||| pages <= n && e == identity_entry(n) && is_own(
                    mappings,
                    segment,
                    requester,
                    0x1000 * n,
                    0x1000 * n + 0x1000,
                )
            },
        large: |tree: int, x: int, e: u64|
            x > 0 && pages <= 512 * x && e == large_identity_entry(x) && is_own(
                mappings,
                segment,
                requester,
                0x20_0000 * x,
                0x20_0000 * x + 0x20_0000,
            ),
    }
}

/// Tables that are sound stay so when they may hold more.
proof fn lemma_wider(m: Map<int, u64>, a: TableArena, o: Map<int, Place>, c: Content, d: Content)
    requires
        sound(m, a, o, c),
        forall|tree: int| #[trigger] (c.trees)(tree) ==> (d.trees)(tree),
        forall|tree: int, n: int, e: u64| #[trigger] (c.small)(tree, n, e) ==> (d.small)(tree, n, e),
        forall|tree: int, n: int, e: u64| #[trigger] (c.large)(tree, n, e) ==> (d.large)(tree, n, e),
    ensures
        sound(m, a, o, d),
{
    assert forall|page: int, i: int| o.dom().contains(page) implies #[trigger] entry_ok(
        m,
        o,
        d,
        page,
        i,
    ) by {
        assert(entry_ok(m, o, c, page, i));
        reveal(entry_ok);
    }
}

/// A reserved range behind the memory of the domain may be mapped to itself.
proof fn lemma_own_entries(
    m: Map<int, u64>,
    host_base: int,
    pages: int,
    mappings: Seq<ReservedMapping>,
    segment: u16,
    requester: u16,
    i: int,
)
    requires
        0 <= i < mappings.len(),
        concerns(mappings[i], segment, requester),
        is_plain_range(m, mappings[i]),
        mappings[i].base % 0x1000 == 0,
        mappings[i].limit % 0x1000 == 0xfff,
        0x1000 * pages <= mappings[i].base <= mappings[i].limit,
        0 <= pages,
    ensures
        ({
            let c = assigned_content(host_base, pages, mappings, segment, requester);
            let start = mappings[i].base as int / 0x1000;
            let end = (mappings[i].limit + 1) / 0x1000;
            &&& pages <= start <= end <= WALK_PAGES
            &&& 0x1000 * start == mappings[i].base
            &&& 0x1000 * end == mappings[i].limit + 1
            &&& maps_identity(c, 0, start)
            &&& forall|n: int| start <= n < end ==> #[trigger] (c.small)(0, n, identity_entry(n))
            &&& forall|n: int|
                #![trigger large_identity_entry(n / 512)]
                start <= n && n + 512 <= end && n % 512 == 0 ==> {
                    &&& (c.large)(0, n / 512, large_identity_entry(n / 512))
                    &&& is_foreign(m.dom(), 0x1000 * n)
                }
        }),
{
    let c = assigned_content(host_base, pages, mappings, segment, requester);
    let start = mappings[i].base as int / 0x1000;
    let end = (mappings[i].limit + 1) / 0x1000;
    assert forall|n: int| start <= n < end implies #[trigger] (c.small)(0, n, identity_entry(n)) by {
        assert(mappings[i].base <= 0x1000 * n && 0x1000 * n + 0x1000 <= mappings[i].limit + 1);
    }
    assert forall|n: int|
        #![trigger large_identity_entry(n / 512)]
        start <= n && n + 512 <= end && n % 512 == 0 implies {
        &&& (c.large)(0, n / 512, large_identity_entry(n / 512))
        &&& is_foreign(m.dom(), 0x1000 * n)
    } by {
        reveal(is_foreign);
        assert(0x20_0000 * (n / 512) == 0x1000 * n);
        assert(n / 512 > 0);
        assert(mappings[i].base <= 0x1000 * n && 0x1000 * n + 0x20_0000 <= mappings[i].limit + 1);
    }
}

spec fn domain_place() -> Place {
    Place { level: 4, tree: 0, prefix: 0 }
}

/// Adding the requester's reserved ranges makes walks find them.
proof fn lemma_own_ranges(
    m: Map<int, u64>,
    runtime: RuntimeView,
    o: Map<int, Place>,
    root: u64,
    mappings: Seq<ReservedMapping>,
    k: int,
    segment: u16,
    requester: u16,
    host_base: int,
    size: u64,
) -> (o1: Map<int, Place>)
    requires
        sound(
            m,
            domain_arena(IommuKind::IntelVtd, runtime),
            o,
            assigned_content(host_base, size as int / 0x1000, mappings, segment, requester),
        ),
        leads_to(o, root as int, domain_place()),
        0 <= k <= mappings.len(),
        size % 0x1000 == 0,
        forall|i: int|
            0 <= i < mappings.len() && concerns(#[trigger] mappings[i], segment, requester)
                ==> is_plain_range(m, mappings[i]),
        ranges_preserved(m, runtime, root, mappings, k, segment, requester, size).result is Ok,
    ensures
        ({
            let after = ranges_preserved(m, runtime, root, mappings, k, segment, requester, size);
            let c = assigned_content(
                host_base,
                size as int / 0x1000,
                mappings,
                segment,
                requester,
            );
            &&& edits(
                m,
                domain_arena(IommuKind::IntelVtd, runtime),
                o,
                after.memory,
                domain_arena(IommuKind::IntelVtd, after.runtime),
                o1,
                c,
            )
            &&& after.runtime.resources == runtime.resources
            &&& forall|i: int, n: int|
                #![trigger mappings[i], walked(after.memory, root as int, n)]
                0 <= i < k && concerns(mappings[i], segment, requester) && mappings[i].base
                    <= 0x1000 * n <= mappings[i].limit ==> walked(
                    after.memory,
                    root as int,
                    n,
                ) is Some
        }),
    decreases k,
{
    let pages = size as int / 0x1000;
    let c = assigned_content(host_base, pages, mappings, segment, requester);
    let a = domain_arena(IommuKind::IntelVtd, runtime);
    if k == 0 {
        o
    } else {
        let before = ranges_preserved(
            m,
            runtime,
            root,
            mappings,
            k - 1,
            segment,
            requester,
            size,
        );
        let o1 = lemma_own_ranges(
            m,
            runtime,
            o,
            root,
            mappings,
            k - 1,
            segment,
            requester,
            host_base,
            size,
        );
        let mapping = mappings[k - 1];
        if !concerns(mapping, segment, requester) {
            o1
        } else {
            let b = domain_arena(IommuKind::IntelVtd, before.runtime);
            let edited = reserved_identity(
                before.memory,
                b,
                root,
                mapping.base as int,
                mapping.limit as int,
            );
            let after = ranges_preserved(
                m,
                runtime,
                root,
                mappings,
                k,
                segment,
                requester,
                size,
            );
            assert(is_plain_range(m, mappings[k - 1]));
            assert(is_plain_range(before.memory, mapping));
            lemma_own_entries(
                before.memory,
                host_base,
                pages,
                mappings,
                segment,
                requester,
                k - 1,
            );
            let start = mapping.base as int / 0x1000;
            let end = (mapping.limit + 1) / 0x1000;
            assert(o1.dom().contains(root as int));
            let o2 = lemma_identity_range(
                before.memory,
                b,
                o1,
                c,
                root,
                0,
                start,
                start,
                end,
            );
            lemma_edits(
                m,
                a,
                o,
                before.memory,
                b,
                o1,
                edited.memory,
                edited.arena,
                o2,
                c,
            );
            assert(domain_arena(IommuKind::IntelVtd, after.runtime) == edited.arena);
            assert forall|i: int, n: int|
                #![trigger mappings[i], walked(after.memory, root as int, n)]
                0 <= i < k && concerns(mappings[i], segment, requester) && mappings[i].base
                    <= 0x1000 * n <= mappings[i].limit implies walked(
                after.memory,
                root as int,
                n,
            ) is Some by {
                assert(is_plain_range(m, mappings[i]));
                if i < k - 1 {
                    assert(walked(before.memory, root as int, n) is Some);
                    lemma_walk_is_kept(
                        before.memory,
                        edited.memory,
                        b,
                        o1,
                        c,
                        root as int,
                        0,
                        n,
                    );
                } else {
                    assert(start <= n < end);
                }
            }
            o2
        }
    }
}

/// Tables whose words are the same are walked alike.
proof fn lemma_same_walk(
    m: Map<int, u64>,
    m1: Map<int, u64>,
    a: TableArena,
    o: Map<int, Place>,
    c: Content,
    root: int,
    n: int,
)
    requires
        sound(m, a, o, c),
        leads_to(o, root, domain_place()),
        0 <= n < WALK_PAGES,
        forall|page: int, i: int|
            o.dom().contains(page) && 0 <= i < 512 ==> #[trigger] word(m1, page, i) == word(
                m,
                page,
                i,
            ),
    ensures
        walked(m1, root, n) == walked(m, root, n),
{
    lemma_nothing_masked(ENTRY_ADDRESS);
    lemma_path(o[root], 4, 0, n);
    lemma_follow(m, a, o, c, root, path_index(4, n));
    assert(word(m1, root, path_index(4, n)) == word(m, root, path_index(4, n)));
    let third = (word(m, root, path_index(4, n)) & ENTRY_ADDRESS) as int;
    if third != 0 {
        lemma_path(o[third], 3, 0, n);
        lemma_follow(m, a, o, c, third, path_index(3, n));
        assert(word(m1, third, path_index(3, n)) == word(m, third, path_index(3, n)));
        let second = (word(m, third, path_index(3, n)) & ENTRY_ADDRESS) as int;
        if second != 0 {
            lemma_path(o[second], 2, 0, n);
            lemma_follow(m, a, o, c, second, path_index(2, n));
            assert(word(m1, second, path_index(2, n)) == word(m, second, path_index(2, n)));
            let e = word(m, second, path_index(2, n));
            if e & LARGE_PAGE == 0 && e & ENTRY_ADDRESS != 0 {
                let first = (e & ENTRY_ADDRESS) as int;
                lemma_path(o[first], 1, 0, n);
                assert(word(m1, first, path_index(1, n)) == word(m, first, path_index(1, n)));
            }
        }
    }
}

/// New tables for a domain lie on pages that were free, and map its memory.
proof fn lemma_fresh_domain(
    kind: IommuKind,
    m: Map<int, u64>,
    runtime: RuntimeView,
    domain_id: u16,
    host_base: u64,
    size: u64,
) -> (o1: Map<int, Place>)
    requires
        domain_arena(kind, runtime).wf(m),
        find_domain(runtime.domains, domain_id, 0) is None,
        size % 0x1000 == 0,
        size <= 0x1000 * WALK_PAGES,
        domain_ensured(kind, m, runtime, domain_id, host_base, size).result is Ok,
    ensures
        ({
            let a = domain_arena(kind, runtime);
            let p = domain_ensured(kind, m, runtime, domain_id, host_base, size);
            let b = domain_arena(kind, p.runtime);
            let root = p.result->Ok_0 as int;
            let pages = size as int / 0x1000;
            &&& sound(p.memory, b, o1, domain_content(kind, host_base as int, pages))
            &&& leads_to(o1, root, domain_place())
            &&& p.memory.dom() == m.dom()
            &&& p.runtime.resources == runtime.resources
            &&& root == a.page(a.next_page as int)
            &&& b.base == a.base
            &&& b.page_count == a.page_count
            &&& b.next_page > a.next_page
            &&& forall|page: int| #[trigger]
                o1.dom().contains(page) ==> page >= a.page(a.next_page as int)
            &&& forall|w: int|
                m.dom().contains(w) && !o1.dom().contains(page_of(w)) ==> #[trigger] p.memory[w]
                    == m[w]
            &&& forall|n: int|
                0 <= n < pages ==> #[trigger] walked(p.memory, root, n) == Some(
                    domain_entry(kind, host_base as int, n),
                )
        }),
{
    let a = domain_arena(kind, runtime);
    let p = domain_ensured(kind, m, runtime, domain_id, host_base, size);
    let fresh = allocated(m, a);
    let root = fresh.result->Ok_0;
    let pages = size as int / 0x1000;
    let c = domain_content(kind, host_base as int, pages);
    assert(a.next_page < a.page_count);
    assert(root == a.page(a.next_page as int));
    assert(fresh.memory.dom() =~= m.dom());
    assert forall|i: int| 0 <= i < 512 implies #[trigger] word(fresh.memory, root as int, i)
        == 0 by {
        assert(m.dom().contains(root + 8 * i));
    }
    let o = Map::empty().insert(root as int, domain_place());
    lemma_empty_table(fresh.memory, fresh.arena, c, root as int, domain_place());
    lemma_domain_entries(kind);
    let o1 = lemma_domain_pages(
        kind,
        fresh.memory,
        fresh.arena,
        o,
        root,
        host_base as int,
        0,
        pages,
    );
    let mapped = domain_mapped(
        kind,
        fresh.memory,
        fresh.arena,
        root,
        host_base as int,
        0,
        size as int,
    );
    assert(0x1000 * pages == size);
    assert(domain_arena(kind, p.runtime) == mapped.arena);
    assert(o1.dom().contains(root as int));
    assert forall|page: int| #[trigger] o1.dom().contains(page) implies page >= a.page(
        a.next_page as int,
    ) by {
        if o.dom().contains(page) {
            assert(page == root);
        }
    }
    assert forall|w: int|
        m.dom().contains(w) && !o1.dom().contains(page_of(w)) implies #[trigger] p.memory[w]
        == m[w] by {
        assert(p.memory[w] == fresh.memory[w]);
        if root <= w < root + 0x1000 {
            assert(page_of(w) == root);
        }
    }
    o1
}

/// The page is part of the domain's memory, is reserved for the requester, or is
/// neither: what a unit finds for it.
pub open spec fn is_assigned_page(
    found: Option<u64>,
    host_base: u64,
    size: u64,
    mappings: Seq<ReservedMapping>,
    segment: u16,
    requester: u16,
    n: int,
) -> bool {
    if 0x1000 * n < size {
        found == Some(domain_entry(IommuKind::IntelVtd, host_base as int, n))
    } else if is_own(mappings, segment, requester, 0x1000 * n, 0x1000 * n + 0x1000) {
        found matches Some(e) && is_identity(e, n)
    } else {
        found is None
    }
}

/// What the tables of a domain hold once they were made for a requester.
proof fn lemma_prepared_tables(
    v: RemapperView,
    m: Map<int, u64>,
    index: int,
    segment: u16,
    requester: u16,
    domain_id: u16,
    host_base: u64,
    size: u64,
) -> (o2: Map<int, Place>)
    requires
        v.topology.kind == IommuKind::IntelVtd,
        unit_wf(v.topology.kind, v.units[index], m),
        is_assignable(requester, host_base, size),
        size <= 0x1000 * WALK_PAGES,
        find_domain(v.units[index].domains, domain_id, 0) is None,
        forall|i: int|
            0 <= i < v.topology.reserved.len() && concerns(
                #[trigger] v.topology.reserved[i],
                segment,
                requester,
            ) ==> is_plain_range(m, v.topology.reserved[i]),
        unit_prepared(
            v,
            m,
            index,
            segment,
            requester,
            domain_id,
            host_base,
            size,
        ).result is Ok,
    ensures
        ({
            let a = domain_arena(v.topology.kind, v.units[index]);
            let p = unit_prepared(
                v,
                m,
                index,
                segment,
                requester,
                domain_id,
                host_base,
                size,
            );
            let b = domain_arena(v.topology.kind, p.runtime);
            let root = p.result->Ok_0 as int;
            let c = assigned_content(
                host_base as int,
                size as int / 0x1000,
                v.topology.reserved,
                segment,
                requester,
            );
            &&& sound(p.memory, b, o2, c)
            &&& leads_to(o2, root, domain_place())
            &&& p.memory.dom() == m.dom()
            &&& p.runtime.resources == v.units[index].resources
            &&& root == a.page(a.next_page as int)
            &&& b.base == a.base
            &&& b.page_count == a.page_count
            &&& b.next_page > a.next_page
            &&& forall|page: int| #[trigger]
                o2.dom().contains(page) ==> page >= a.page(a.next_page as int)
            &&& forall|w: int|
                m.dom().contains(w) && !o2.dom().contains(page_of(w)) ==> #[trigger] p.memory[w]
                    == m[w]
            &&& forall|n: int|
                0 <= n < WALK_PAGES ==> is_assigned_page(
                    #[trigger] walked(p.memory, root, n),
                    host_base,
                    size,
                    v.topology.reserved,
                    segment,
                    requester,
                    n,
                )
        }),
{
    let kind = v.topology.kind;
    let runtime = v.units[index];
    let a = domain_arena(kind, runtime);
    let pages = size as int / 0x1000;
    let mappings = v.topology.reserved;
    let c = assigned_content(host_base as int, pages, mappings, segment, requester);
    let made = domain_ensured(kind, m, runtime, domain_id, host_base, size);
    let root = made.result->Ok_0;
    let o1 = lemma_fresh_domain(kind, m, runtime, domain_id, host_base, size);
    let b = domain_arena(kind, made.runtime);
    let d = domain_content(kind, host_base as int, pages);
    lemma_wider(made.memory, b, o1, d, c);
    let k = mappings.len() as int;
    assert forall|i: int|
        0 <= i < mappings.len() && concerns(
            #[trigger] mappings[i],
            segment,
            requester,
        ) implies is_plain_range(made.memory, mappings[i]) by {
        assert(is_plain_range(m, mappings[i]));
    }
    let o2 = lemma_own_ranges(
        made.memory,
        made.runtime,
        o1,
        root,
        mappings,
        k,
        segment,
        requester,
        host_base as int,
        size,
    );
    let p = unit_prepared(v, m, index, segment, requester, domain_id, host_base, size);
    let e = domain_arena(kind, p.runtime);
    assert(o2.dom().contains(root as int));
    assert forall|page: int| #[trigger] o2.dom().contains(page) implies page >= a.page(
        a.next_page as int,
    ) by {
        if o1.dom().contains(page) {
        }
    }
    assert forall|w: int|
        m.dom().contains(w) && !o2.dom().contains(page_of(w)) implies #[trigger] p.memory[w]
        == m[w] by {
        if o1.dom().contains(page_of(w)) {
            assert(o2.dom().contains(page_of(w)));
        }
        assert(made.memory[w] == m[w]);
    }
    assert forall|n: int| 0 <= n < WALK_PAGES implies is_assigned_page(
        #[trigger] walked(p.memory, root as int, n),
        host_base,
        size,
        mappings,
        segment,
        requester,
        n,
    ) by {
        lemma_walk_is_sound(p.memory, e, o2, c, root as int, 0, n);
        if n < pages {
            assert(walked(made.memory, root as int, n) == Some(
                domain_entry(kind, host_base as int, n),
            ));
            lemma_walk_is_kept(made.memory, p.memory, b, o1, c, root as int, 0, n);
        } else {
            if let Some(found) = walked(p.memory, root as int, n) {
                if (c.large)(0, n / 0x200, found) {
                    let x = n / 0x200;
                    let i = choose|i: int|
                        #![trigger mappings[i]]
                        0 <= i < mappings.len() && concerns(mappings[i], segment, requester)
                            && mappings[i].base <= 0x20_0000 * x && 0x20_0000 * x + 0x20_0000
                            <= mappings[i].limit + 1;
                    assert(mappings[i].base <= 0x1000 * n && 0x1000 * n + 0x1000
                        <= mappings[i].limit + 1);
                }
            }
            if is_own(mappings, segment, requester, 0x1000 * n, 0x1000 * n + 0x1000) {
                let i = choose|i: int|
                    #![trigger mappings[i]]
                    0 <= i < mappings.len() && concerns(mappings[i], segment, requester)
                        && mappings[i].base <= 0x1000 * n && 0x1000 * n + 0x1000
                        <= mappings[i].limit + 1;
                assert(concerns(mappings[i], segment, requester));
                assert(walked(p.memory, root as int, n) is Some);
            }
        }
    }
    o2
}

/// Where the bus of a requester has a context table, it is a page that was taken after
/// the root table.
pub open spec fn is_context_taken(m: Map<int, u64>, a: TableArena, requester: u16) -> bool {
    let table = m[context_at(a.base, requester as int / 256)] & CONTEXT_ADDRESS;
    a.next_page >= 1 && (table == 0 || a.base < table < a.page(a.next_page as int))
}

/// Attaching a requester lets the unit find the tables, and writes nothing on the pages
/// from `from` up to the free ones.
#[verifier::spinoff_prover]
proof fn lemma_context_stored(
    m: Map<int, u64>,
    a: TableArena,
    from: int,
    requester: u16,
    domain_id: u16,
    root: u64,
)
    requires
        a.wf(m),
        a.base < from <= a.page(a.next_page as int),
        from % 0x1000 == 0,
        root % 0x1000 == 0,
        0 < root < PHYSICAL_LIMIT,
        ({
            let table = m[context_at(a.base, requester as int / 256)] & CONTEXT_ADDRESS;
            table == 0 || a.base < table < from
        }),
        intel_attached(m, a, requester, domain_id, root).result is Ok,
    ensures
        ({
            let after = intel_attached(m, a, requester, domain_id, root).memory;
            &&& context_root(after, a.base, requester) == Some(root as int)
            &&& forall|x: int|
                from <= x < a.page(a.next_page as int) && m.dom().contains(x)
                    ==> #[trigger] after[x] == m[x]
            &&& forall|other: u16|
                is_context_taken(m, a, other) ==> #[trigger] is_context_taken(
                    after,
                    intel_attached(m, a, requester, domain_id, root).arena,
                    other,
                )
        }),
{
    let bus = requester as int / 256;
    let function = requester as int % 256;
    let w = context_at(a.base, bus);
    let entry = with_root_entry(m, a, a.base, bus);
    let table = entry.result->Ok_0;
    let at = context_at(table, function);
    let next = a.page(a.next_page as int);
    lemma_present_bit();
    lemma_link_value(root, INTEL_PRESENT, CONTEXT_ADDRESS);
    lemma_context_aligned(m[w]);
    if m[w] & CONTEXT_ADDRESS == 0 {
        lemma_link_value(next as u64, INTEL_PRESENT, CONTEXT_ADDRESS);
        assert(table == next);
        assert(entry.memory[w] == table | INTEL_PRESENT);
        assert forall|x: int| from <= x < next && m.dom().contains(x) implies #[trigger] entry.memory[x]
            == m[x] by {
            assert(x != w);
        }
    } else {
        assert(entry.memory == m);
    }
    assert(a.base + 0x1000 <= table);
    assert(w < table <= at);
    let edit = intel_attached(m, a, requester, domain_id, root);
    assert(edit.memory[w] & CONTEXT_ADDRESS == table);
    assert forall|other: u16| is_context_taken(m, a, other) implies #[trigger] is_context_taken(
        edit.memory,
        edit.arena,
        other,
    ) by {
        let x = context_at(a.base, other as int / 256);
        assert(m.dom().contains(x));
        if other as int / 256 != bus {
            assert(edit.memory[x] == m[x]);
        }
    }
}

/// Attaching a requester to tables on pages that were free leaves the tables as they
/// are, and lets the unit find them.
proof fn lemma_attached(
    m: Map<int, u64>,
    a: TableArena,
    o: Map<int, Place>,
    c: Content,
    from: int,
    requester: u16,
    domain_id: u16,
    root: u64,
    n: int,
)
    requires
        sound(m, a, o, c),
        leads_to(o, root as int, domain_place()),
        0 <= n < WALK_PAGES,
        a.base < from <= a.page(a.next_page as int),
        from % 0x1000 == 0,
        forall|page: int| #[trigger] o.dom().contains(page) ==> page >= from,
        ({
            let table = m[context_at(a.base, requester as int / 256)] & CONTEXT_ADDRESS;
            table == 0 || a.base < table < from
        }),
        intel_attached(m, a, requester, domain_id, root).result is Ok,
    ensures
        reached(intel_attached(m, a, requester, domain_id, root).memory, a.base, requester, n)
            == walked(m, root as int, n),
{
    let after = intel_attached(m, a, requester, domain_id, root).memory;
    assert(is_taken(a, root as int));
    lemma_context_stored(m, a, from, requester, domain_id, root);
    assert forall|page: int, i: int|
        o.dom().contains(page) && 0 <= i < 512 implies #[trigger] word(after, page, i) == word(
        m,
        page,
        i,
    ) by {
        lemma_table_word(m, a, o, c, page, i);
        assert(is_taken(a, page));
        assert(page + 0x1000 <= a.page(a.next_page as int));
    }
    lemma_same_walk(m, after, a, o, c, root as int, n);
}

proof fn lemma_context_aligned(e: u64)
    ensures
        (e & CONTEXT_ADDRESS) % 0x1000 == 0,
{
    assert((e & 0xffff_ffff_ffff_f000) % 0x1000 == 0) by (bit_vector);
}

/// What a requester of a VT-d unit reaches once a unit was prepared for it and a new
/// domain, and it was attached: the domain's memory from address zero on, behind it the
/// ranges that firmware reserved for the requester, each page at its own address, and
/// nothing else.
#[verifier::spinoff_prover]
#[verifier::rlimit(80)]
pub proof fn law_assigned_requester_reaches_its_domain(
    v: RemapperView,
    m: Map<int, u64>,
    index: int,
    segment: u16,
    requester: u16,
    domain_id: u16,
    host_base: u64,
    size: u64,
    n: int,
)
    requires
        v.topology.kind == IommuKind::IntelVtd,
        unit_wf(v.topology.kind, v.units[index], m),
        is_context_taken(m, domain_arena(v.topology.kind, v.units[index]), requester),
        is_assignable(requester, host_base, size),
        size <= 0x1000 * WALK_PAGES,
        find_domain(v.units[index].domains, domain_id, 0) is None,
        forall|i: int|
            0 <= i < v.topology.reserved.len() && concerns(
                #[trigger] v.topology.reserved[i],
                segment,
                requester,
            ) ==> is_plain_range(m, v.topology.reserved[i]),
        ({
            let p = unit_prepared(
                v,
                m,
                index,
                segment,
                requester,
                domain_id,
                host_base,
                size,
            );
            &&& p.result is Ok
            &&& unit_attached(
                v.topology.kind,
                p.memory,
                p.runtime,
                requester,
                domain_id,
                p.result->Ok_0,
            ).result is Ok
        }),
        0 <= n < WALK_PAGES,
    ensures
        ({
            let p = unit_prepared(
                v,
                m,
                index,
                segment,
                requester,
                domain_id,
                host_base,
                size,
            );
            let after = unit_attached(
                v.topology.kind,
                p.memory,
                p.runtime,
                requester,
                domain_id,
                p.result->Ok_0,
            ).memory;
            is_assigned_page(
                reached(after, v.units[index].resources.remapping_table, requester, n),
                host_base,
                size,
                v.topology.reserved,
                segment,
                requester,
                n,
            )
        }),
{
    let kind = v.topology.kind;
    let a = domain_arena(kind, v.units[index]);
    let p = unit_prepared(v, m, index, segment, requester, domain_id, host_base, size);
    let b = domain_arena(kind, p.runtime);
    let root = p.result->Ok_0;
    let c = assigned_content(
        host_base as int,
        size as int / 0x1000,
        v.topology.reserved,
        segment,
        requester,
    );
    let o = lemma_prepared_tables(
        v,
        m,
        index,
        segment,
        requester,
        domain_id,
        host_base,
        size,
    );
    let from = a.page(a.next_page as int);
    let w = context_at(a.base, requester as int / 256);
    assert(page_of(w) == a.base);
    assert(m.dom().contains(w));
    assert(!o.dom().contains(a.base as int));
    assert(p.memory[w] == m[w]);
    lemma_attached(p.memory, b, o, c, from, requester, domain_id, root, n);
    assert(is_assigned_page(
        walked(p.memory, root as int, n),
        host_base,
        size,
        v.topology.reserved,
        segment,
        requester,
        n,
    ));
}

/// Once the reserved ranges are mapped from an empty root table on, every context table
/// is a page that was taken after the root table.
pub proof fn law_context_tables_are_taken(
    m: Map<int, u64>,
    root_table: u64,
    mappings: Seq<ReservedMapping>,
    requester: u16,
)
    requires
        intel_arena(root_table).wf(m),
        is_empty_table(m, intel_arena(root_table), root_table as int),
        forall|i: int|
            0 <= i < mappings.len() && (#[trigger] mappings[i]).segment == 0 ==> is_plain_range(
                m,
                mappings[i],
            ),
    ensures
        ({
            let after = with_reserved_ranges(
                m,
                intel_arena(root_table),
                root_table,
                mappings,
                mappings.len() as int,
            );
            is_context_taken(after.memory, after.arena, requester)
        }),
{
    let a = intel_arena(root_table);
    let c = reserved_content(mappings);
    let p = Place { level: 6, tree: 0, prefix: 0 };
    let o = Map::empty().insert(root_table as int, p);
    let k = mappings.len() as int;
    let bus = requester as int / 256;
    lemma_empty_table(m, a, c, root_table as int, p);
    let o1 = lemma_reserved_ranges(m, a, o, root_table, mappings, k);
    let after = with_reserved_ranges(m, a, root_table, mappings, k);
    assert(o1.dom().contains(root_table as int));
    lemma_follow(after.memory, after.arena, o1, c, root_table as int, bus);
    lemma_nothing_masked(CONTEXT_ADDRESS);
    let e = word(after.memory, root_table as int, 2 * bus);
    assert(e == after.memory[context_at(root_table, bus)]);
    if e != 0 {
        assert(is_taken(after.arena, (e & CONTEXT_ADDRESS) as int));
    }
}

/// Assigning a requester to a new domain keeps every context table a page that was
/// taken after the root table.
#[verifier::spinoff_prover]
#[verifier::rlimit(40)]
pub proof fn law_assignment_keeps_contexts_taken(
    v: RemapperView,
    m: Map<int, u64>,
    index: int,
    segment: u16,
    requester: u16,
    other: u16,
    domain_id: u16,
    host_base: u64,
    size: u64,
)
    requires
        v.topology.kind == IommuKind::IntelVtd,
        unit_wf(v.topology.kind, v.units[index], m),
        is_context_taken(m, domain_arena(v.topology.kind, v.units[index]), requester),
        is_context_taken(m, domain_arena(v.topology.kind, v.units[index]), other),
        is_assignable(requester, host_base, size),
        size <= 0x1000 * WALK_PAGES,
        find_domain(v.units[index].domains, domain_id, 0) is None,
        forall|i: int|
            0 <= i < v.topology.reserved.len() && concerns(
                #[trigger] v.topology.reserved[i],
                segment,
                requester,
            ) ==> is_plain_range(m, v.topology.reserved[i]),
        ({
            let p = unit_prepared(
                v,
                m,
                index,
                segment,
                requester,
                domain_id,
                host_base,
                size,
            );
            &&& p.result is Ok
            &&& unit_attached(
                v.topology.kind,
                p.memory,
                p.runtime,
                requester,
                domain_id,
                p.result->Ok_0,
            ).result is Ok
        }),
    ensures
        ({
            let p = unit_prepared(
                v,
                m,
                index,
                segment,
                requester,
                domain_id,
                host_base,
                size,
            );
            let after = unit_attached(
                v.topology.kind,
                p.memory,
                p.runtime,
                requester,
                domain_id,
                p.result->Ok_0,
            );
            is_context_taken(after.memory, domain_arena(v.topology.kind, after.runtime), other)
        }),
{
    let kind = v.topology.kind;
    let a = domain_arena(kind, v.units[index]);
    let p = unit_prepared(v, m, index, segment, requester, domain_id, host_base, size);
    let b = domain_arena(kind, p.runtime);
    let root = p.result->Ok_0;
    let o = lemma_prepared_tables(
        v,
        m,
        index,
        segment,
        requester,
        domain_id,
        host_base,
        size,
    );
    let from = a.page(a.next_page as int);
    assert(!o.dom().contains(a.base as int));
    let mine = context_at(a.base, requester as int / 256);
    let theirs = context_at(a.base, other as int / 256);
    assert(page_of(mine) == a.base && page_of(theirs) == a.base);
    assert(m.dom().contains(mine) && m.dom().contains(theirs));
    assert(p.memory[mine] == m[mine] && p.memory[theirs] == m[theirs]);
    assert(is_taken(b, root as int));
    lemma_context_stored(p.memory, b, from, requester, domain_id, root);
    assert(is_context_taken(p.memory, b, other));
    let edit = intel_attached(p.memory, b, requester, domain_id, root);
    let after = unit_attached(kind, p.memory, p.runtime, requester, domain_id, root);
    assert(domain_arena(kind, after.runtime) == edit.arena);
}

/// The tables that an AMD-Vi unit finds for a requester: none where its entry of the
/// device table is not valid.
pub open spec fn device_root(m: Map<int, u64>, device_table: u64, requester: u16) -> Option<int> {
    let low = m[device_at(device_table, requester)];
    if low & AMD_DTE_VALID == 0 {
        None
    } else {
        Some((low & ENTRY_ADDRESS) as int)
    }
}

/// The entry that an AMD-Vi unit finds for the `n`-th page of a requester's addresses.
pub open spec fn device_reached(
    m: Map<int, u64>,
    device_table: u64,
    requester: u16,
    n: int,
) -> Option<u64> {
    match device_root(m, device_table, requester) {
        None => None,
        Some(root) => walked(m, root, n),
    }
}

/// With an empty device table, an AMD-Vi unit finds tables for no requester.
pub proof fn law_empty_device_table_leads_nowhere(
    m: Map<int, u64>,
    device_table: u64,
    requester: u16,
    n: int,
)
    requires
        m[device_at(device_table, requester)] == 0,
    ensures
        device_root(m, device_table, requester) is None,
        device_reached(m, device_table, requester, n) is None,
{
    assert(0u64 & 1 == 0) by (bit_vector);
}

/// What a requester of an AMD-Vi unit reaches once a unit was prepared for it and a new
/// domain, and it was attached: the domain's memory from address zero on, and nothing
/// else. What other requesters find stays as it was.
#[verifier::spinoff_prover]
#[verifier::rlimit(60)]
pub proof fn law_assigned_amd_requester_reaches_its_domain(
    v: RemapperView,
    m: Map<int, u64>,
    index: int,
    segment: u16,
    requester: u16,
    other: u16,
    domain_id: u16,
    host_base: u64,
    size: u64,
    n: int,
)
    requires
        v.topology.kind == IommuKind::AmdVi,
        unit_wf(v.topology.kind, v.units[index], m),
        ({
            let a = domain_arena(v.topology.kind, v.units[index]);
            let table = v.units[index].resources.remapping_table;
            table + 0x20_0000 <= a.base || a.page(a.page_count as int) <= table
        }),
        covers(m, v.units[index].resources.remapping_table as int, 0x20_0000),
        is_assignable(requester, host_base, size),
        size <= 0x1000 * WALK_PAGES,
        find_domain(v.units[index].domains, domain_id, 0) is None,
        ({
            let p = unit_prepared(
                v,
                m,
                index,
                segment,
                requester,
                domain_id,
                host_base,
                size,
            );
            &&& p.result is Ok
            &&& unit_attached(
                v.topology.kind,
                p.memory,
                p.runtime,
                requester,
                domain_id,
                p.result->Ok_0,
            ).result is Ok
        }),
        other != requester,
        0 <= n < WALK_PAGES,
    ensures
        ({
            let table = v.units[index].resources.remapping_table;
            let p = unit_prepared(
                v,
                m,
                index,
                segment,
                requester,
                domain_id,
                host_base,
                size,
            );
            let after = unit_attached(
                v.topology.kind,
                p.memory,
                p.runtime,
                requester,
                domain_id,
                p.result->Ok_0,
            ).memory;
            &&& device_reached(after, table, requester, n) == (if 0x1000 * n < size {
                Some(domain_entry(IommuKind::AmdVi, host_base as int, n))
            } else {
                None
            })
            &&& device_root(after, table, other) == device_root(m, table, other)
        }),
{
    let kind = v.topology.kind;
    let runtime = v.units[index];
    let a = domain_arena(kind, runtime);
    let table = runtime.resources.remapping_table;
    let p = unit_prepared(v, m, index, segment, requester, domain_id, host_base, size);
    let b = domain_arena(kind, p.runtime);
    let root = p.result->Ok_0;
    let pages = size as int / 0x1000;
    let c = domain_content(kind, host_base as int, pages);
    let o = lemma_fresh_domain(kind, m, runtime, domain_id, host_base, size);
    let at = device_at(table, requester);
    let after = unit_attached(kind, p.memory, p.runtime, requester, domain_id, root).memory;
    assert(is_taken(b, root as int));
    lemma_device_stored(p.memory, table, requester, domain_id, root);
    assert forall|page: int, i: int|
        o.dom().contains(page) && 0 <= i < 512 implies #[trigger] word(after, page, i) == word(
        p.memory,
        page,
        i,
    ) by {
        assert(is_taken(b, page));
        assert(page + 0x1000 <= b.page(b.next_page as int));
        assert(!(at <= page + 8 * i < at + 32));
    }
    lemma_same_walk(p.memory, after, b, o, c, root as int, n);
    lemma_walk_is_sound(p.memory, b, o, c, root as int, 0, n);
    if n < pages {
        assert(walked(p.memory, root as int, n) == Some(domain_entry(kind, host_base as int, n)));
    }
    let w = device_at(table, other);
    assert(m.dom().contains(w));
    assert(!o.dom().contains(page_of(w))) by {
        if o.dom().contains(page_of(w)) {
            assert(is_taken(b, page_of(w)));
        }
    }
    assert(p.memory[w] == m[w]);
}

/// Storing a requester's entry lets the unit find the tables, and writes nothing else.
proof fn lemma_device_stored(
    m: Map<int, u64>,
    device_table: u64,
    requester: u16,
    domain_id: u16,
    root: u64,
)
    requires
        root % 0x1000 == 0,
        root < PHYSICAL_LIMIT,
    ensures
        ({
            let at = device_at(device_table, requester);
            let after = with_device_entry(m, at, device_entry(root, domain_id));
            &&& device_root(after, device_table, requester) == Some(root as int)
            &&& forall|x: int| !(at <= x < at + 32) ==> #[trigger] after[x] == m[x]
        }),
{
    assert((root | 1 | 2 | 0x800 | 0x6000_0000_0000_0000) & 1 != 0 && (root | 1 | 2 | 0x800
        | 0x6000_0000_0000_0000) & 0x000f_ffff_ffff_f000 == root) by (bit_vector)
        requires
            root % 0x1000 == 0,
            root < 0x10_0000_0000_0000,
    ;
}

} // verus!
