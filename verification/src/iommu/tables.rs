//! The tables that remapping units walk.

use vstd::prelude::*;

use crate::physical::{cleared, covers, PhysicalMemory};
use super::{Error, IommuKind, ReservedMapping, INTEL_TABLE_PAGES};

verus! {

pub const PAGE_SIZE: u64 = 0x1000;

pub const LARGE_PAGE_SIZE: u64 = 0x20_0000;

/// The first physical address that no table entry can name.
pub const PHYSICAL_LIMIT: u64 = 0x10_0000_0000_0000;

/// The address bits of an entry in a page table.
pub const ENTRY_ADDRESS: u64 = 0x000f_ffff_ffff_f000;

/// The address bits of an entry in a root or context table.
pub const CONTEXT_ADDRESS: u64 = 0xffff_ffff_ffff_f000;

pub const INTEL_PRESENT: u64 = 1;

pub const INTEL_READ_WRITE: u64 = 3;

pub const INTEL_LARGE_READ_WRITE: u64 = 0x83;

pub const LARGE_PAGE: u64 = 0x80;

/// A 48-bit guest address width, in the upper word of a context entry.
pub const INTEL_ADDRESS_WIDTH: u64 = 2;

/// The domain of requesters that only reach what firmware reserved for them.
pub const INTEL_RESERVED_DOMAIN: u16 = 1;

pub const AMD_PTE_PRESENT: u64 = 1;

pub const AMD_PTE_READ_WRITE: u64 = 0x6000_0000_0000_0000;

pub const AMD_DTE_VALID: u64 = 1;

pub const AMD_DTE_TRANSLATION_VALID: u64 = 2;

pub const AMD_DTE_MODE_4_LEVEL: u64 = 0x800;

pub const AMD_DTE_READ_WRITE: u64 = 0x6000_0000_0000_0000;

/// Pages that tables are made of, taken in order.
#[derive(Clone, Copy, Debug, PartialEq, Eq, Structural)]
pub struct TableArena {
    pub base: u64,
    pub next_page: usize,
    pub page_count: usize,
}

impl TableArena {
    /// The pages are mapped, and an entry can name each of them.
    pub open spec fn wf(self, m: Map<int, u64>) -> bool {
        &&& self.base % PAGE_SIZE == 0
        &&& self.base > 0
        &&& self.base + 0x1000 * self.page_count <= PHYSICAL_LIMIT
        &&& self.next_page <= self.page_count
        &&& covers(m, self.base as int, 0x1000 * self.page_count)
    }

    /// The address of a page.
    pub open spec fn page(self, index: int) -> int {
        self.base + 0x1000 * index
    }
}

/// Memory and pages after a table was edited, and what came of it.
#[verifier::ext_equal]
pub struct Edited {
    pub result: Result<u64, Error>,
    pub memory: Map<int, u64>,
    pub arena: TableArena,
}

pub open spec fn failed(error: Error, m: Map<int, u64>, arena: TableArena) -> Edited {
    Edited { result: Err(error), memory: m, arena }
}

/// The address of an entry in a page table.
pub open spec fn entry_at(table: u64, index: int) -> int {
    table + 8 * index
}

/// The address of the lower word of a root or context entry.
pub open spec fn context_at(table: u64, index: int) -> int {
    table + 16 * index
}

/// The next page, cleared.
pub open spec fn allocated(m: Map<int, u64>, arena: TableArena) -> Edited {
    if arena.next_page >= arena.page_count {
        failed(Error::TableExhausted, m, arena)
    } else {
        let page = arena.page(arena.next_page as int);
        Edited {
            result: Ok(page as u64),
            memory: cleared(m, page, 0x1000),
            arena: TableArena { next_page: (arena.next_page + 1) as usize, ..arena },
        }
    }
}

/// The table that the entry at `at` leads to: the one that is there, or a fresh
/// page that the entry is made to name. An entry outside owned memory is refused.
pub open spec fn with_child(
    m: Map<int, u64>,
    arena: TableArena,
    at: int,
    mask: u64,
    flags: u64,
) -> Edited {
    if !m.dom().contains(at) {
        failed(Error::InvalidResources, m, arena)
    } else if m[at] & mask != 0 {
        Edited { result: Ok(m[at] & mask), memory: m, arena }
    } else {
        let fresh = allocated(m, arena);
        match fresh.result {
            Err(_) => fresh,
            Ok(page) => Edited { memory: fresh.memory.insert(at, page | flags), ..fresh },
        }
    }
}

/// One word written, if it is owned; the result is the size that it maps.
pub open spec fn with_leaf(
    m: Map<int, u64>,
    arena: TableArena,
    at: int,
    value: u64,
    size: u64,
) -> Edited {
    if !m.dom().contains(at) {
        failed(Error::InvalidResources, m, arena)
    } else {
        Edited { result: Ok(size), memory: m.insert(at, value), arena }
    }
}

/// Where a table entry masked to its address lies.
proof fn lemma_masked(x: u64)
    ensures
        (x & ENTRY_ADDRESS) % 0x1000 == 0,
        x & ENTRY_ADDRESS < PHYSICAL_LIMIT,
        (x & CONTEXT_ADDRESS) % 0x1000 == 0,
{
    assert((x & 0x000f_ffff_ffff_f000) % 0x1000 == 0 && x & 0x000f_ffff_ffff_f000
        < 0x10_0000_0000_0000 && (x & 0xffff_ffff_ffff_f000) % 0x1000 == 0) by (bit_vector);
}

/// The word at an address, if it is owned.
fn read_owned(memory: &PhysicalMemory, at: u64) -> (r: Result<u64, Error>)
    requires
        memory.wf(),
    ensures
        r == (if memory@.dom().contains(at as int) {
            Ok(memory@[at as int])
        } else {
            Err(Error::InvalidResources)
        }),
{
    if memory.contains(at) {
        Ok(memory.read(at))
    } else {
        Err(Error::InvalidResources)
    }
}

impl TableArena {
    /// Takes the next page and clears it.
    pub fn allocate(&mut self, memory: &mut PhysicalMemory) -> (r: Result<u64, Error>)
        requires
            old(memory).wf(),
            old(self).wf(old(memory)@),
        ensures
            final(memory).wf(),
            final(self).wf(final(memory)@),
            (Edited { result: r, memory: final(memory)@, arena: *final(self) }) == allocated(
                old(memory)@,
                *old(self),
            ),
    {
        if self.next_page >= self.page_count {
            return Err(Error::TableExhausted);
        }
        let address: u64 = self.base + self.next_page as u64 * PAGE_SIZE;
        self.next_page += 1;
        assert forall|a: int| address <= a < address + 0x1000 && a % 8 == 0 implies
            #[trigger] memory@.dom().contains(a) by {
            assert(self.base <= a < self.base + 0x1000 * self.page_count);
        }
        memory.clear(address, 512);
        Ok(address)
    }

    /// The table that the entry at `at` leads to, made where there is none.
    fn ensure_child(
        &mut self,
        memory: &mut PhysicalMemory,
        at: u64,
        mask: u64,
        flags: u64,
    ) -> (r: Result<u64, Error>)
        requires
            old(memory).wf(),
            old(self).wf(old(memory)@),
            mask == ENTRY_ADDRESS || mask == CONTEXT_ADDRESS,
        ensures
            final(memory).wf(),
            final(self).wf(final(memory)@),
            (Edited { result: r, memory: final(memory)@, arena: *final(self) }) == with_child(
                old(memory)@,
                *old(self),
                at as int,
                mask,
                flags,
            ),
            r matches Ok(child) ==> child % 0x1000 == 0 && child > 0,
    {
        let current: u64 = read_owned(memory, at)?;
        let child: u64 = current & mask;
        proof {
            lemma_masked(current);
        }
        if child != 0 {
            return Ok(child);
        }
        let page: u64 = self.allocate(memory)?;
        memory.write(at, page | flags);
        Ok(page)
    }
}

/// The context table of a bus.
pub open spec fn with_root_entry(
    m: Map<int, u64>,
    arena: TableArena,
    root_table: u64,
    bus: int,
) -> Edited {
    with_child(m, arena, context_at(root_table, bus), CONTEXT_ADDRESS, INTEL_PRESENT)
}

/// Finds or makes the context table of a bus.
fn ensure_root_entry(
    memory: &mut PhysicalMemory,
    root_table: u64,
    bus: u64,
    arena: &mut TableArena,
) -> (r: Result<u64, Error>)
    requires
        old(memory).wf(),
        old(arena).wf(old(memory)@),
        root_table % 0x1000 == 0,
        bus < 256,
    ensures
        final(memory).wf(),
        final(arena).wf(final(memory)@),
        (Edited { result: r, memory: final(memory)@, arena: *final(arena) }) == with_root_entry(
            old(memory)@,
            *old(arena),
            root_table,
            bus as int,
        ),
        r matches Ok(child) ==> child % 0x1000 == 0 && child > 0,
{
    arena.ensure_child(memory, root_table + bus * 16, CONTEXT_ADDRESS, INTEL_PRESENT)
}

/// A page mapped to itself in a table of the second level.
#[verifier::opaque]
pub open spec fn identity_leaf(
    m: Map<int, u64>,
    arena: TableArena,
    level2: u64,
    address: int,
    end: int,
) -> Edited {
    let at = entry_at(level2, address / 0x20_0000 % 512);
    let large = address % 0x20_0000 == 0 && end - address >= 0x20_0000;
    if !m.dom().contains(at) {
        failed(Error::InvalidResources, m, arena)
    } else if large && (m[at] == 0 || m[at] & LARGE_PAGE != 0) {
        with_leaf(m, arena, at, address as u64 | INTEL_LARGE_READ_WRITE, LARGE_PAGE_SIZE)
    } else {
        let first = with_child(m, arena, at, ENTRY_ADDRESS, INTEL_READ_WRITE);
        match first.result {
            Err(_) => first,
            Ok(level1) => with_leaf(
                first.memory,
                first.arena,
                entry_at(level1, address / 0x1000 % 512),
                address as u64 | INTEL_READ_WRITE,
                PAGE_SIZE,
            ),
        }
    }
}

/// One step of an identity mapping: a large page where the address and the rest
/// of the range allow it, else a small one. The result is the size of the page.
#[verifier::opaque]
pub open spec fn identity_step(
    m: Map<int, u64>,
    arena: TableArena,
    level4: u64,
    address: int,
    end: int,
) -> Edited {
    let third = with_child(
        m,
        arena,
        entry_at(level4, address / 0x80_0000_0000 % 512),
        ENTRY_ADDRESS,
        INTEL_READ_WRITE,
    );
    match third.result {
        Err(_) => third,
        Ok(level3) => {
            let second = with_child(
                third.memory,
                third.arena,
                entry_at(level3, address / 0x4000_0000 % 512),
                ENTRY_ADDRESS,
                INTEL_READ_WRITE,
            );
            match second.result {
                Err(_) => second,
                Ok(level2) => identity_leaf(second.memory, second.arena, level2, address, end),
            }
        },
    }
}

/// A range mapped to itself, step by step.
pub open spec fn identity_mapped(
    m: Map<int, u64>,
    arena: TableArena,
    level4: u64,
    address: int,
    end: int,
) -> Edited
    decreases
            (if end > address {
                end - address
            } else {
                0
            }),
{
    if address >= end {
        Edited { result: Ok(0), memory: m, arena }
    } else {
        let step = identity_step(m, arena, level4, address, end);
        match step.result {
            Err(_) => step,
            Ok(size) => if size == 0 {
                step
            } else {
                identity_mapped(step.memory, step.arena, level4, address + size, end)
            },
        }
    }
}

/// Maps a page to itself in a table of the second level.
#[verifier::spinoff_prover]
fn map_identity_leaf(
    memory: &mut PhysicalMemory,
    level2: u64,
    address: u64,
    end: u64,
    arena: &mut TableArena,
) -> (r: Result<u64, Error>)
    requires
        old(memory).wf(),
        old(arena).wf(old(memory)@),
        level2 % 0x1000 == 0,
        address < end,
    ensures
        final(memory).wf(),
        final(arena).wf(final(memory)@),
        (Edited { result: r, memory: final(memory)@, arena: *final(arena) }) == identity_leaf(
            old(memory)@,
            *old(arena),
            level2,
            address as int,
            end as int,
        ),
        r matches Ok(size) ==> size == PAGE_SIZE || (size == LARGE_PAGE_SIZE && end - address
            >= LARGE_PAGE_SIZE),
{
    reveal(identity_leaf);
    let at: u64 = level2 + address / LARGE_PAGE_SIZE % 512 * 8;
    let current: u64 = read_owned(memory, at)?;
    if address % LARGE_PAGE_SIZE == 0 && end - address >= LARGE_PAGE_SIZE {
        if current == 0 || current & LARGE_PAGE != 0 {
            memory.write(at, address | INTEL_LARGE_READ_WRITE);
            return Ok(LARGE_PAGE_SIZE);
        }
    }
    let level1: u64 = arena.ensure_child(memory, at, ENTRY_ADDRESS, INTEL_READ_WRITE)?;
    let leaf: u64 = level1 + address / PAGE_SIZE % 512 * 8;
    read_owned(memory, leaf)?;
    memory.write(leaf, address | INTEL_READ_WRITE);
    Ok(PAGE_SIZE)
}

/// Takes one step of an identity mapping.
#[verifier::spinoff_prover]
fn identity_map_step(
    memory: &mut PhysicalMemory,
    level4: u64,
    address: u64,
    end: u64,
    arena: &mut TableArena,
) -> (r: Result<u64, Error>)
    requires
        old(memory).wf(),
        old(arena).wf(old(memory)@),
        level4 % 0x1000 == 0,
        address < end,
    ensures
        final(memory).wf(),
        final(arena).wf(final(memory)@),
        (Edited { result: r, memory: final(memory)@, arena: *final(arena) }) == identity_step(
            old(memory)@,
            *old(arena),
            level4,
            address as int,
            end as int,
        ),
        r matches Ok(size) ==> size == PAGE_SIZE || (size == LARGE_PAGE_SIZE && end - address
            >= LARGE_PAGE_SIZE),
{
    reveal(identity_step);
    let level3: u64 = arena.ensure_child(
        memory,
        level4 + address / 0x80_0000_0000 % 512 * 8,
        ENTRY_ADDRESS,
        INTEL_READ_WRITE,
    )?;
    let level2: u64 = arena.ensure_child(
        memory,
        level3 + address / 0x4000_0000 % 512 * 8,
        ENTRY_ADDRESS,
        INTEL_READ_WRITE,
    )?;
    map_identity_leaf(memory, level2, address, end, arena)
}

/// Maps a range to itself. Aligned interiors use large pages; edges that are
/// only aligned to small pages use a final page table.
fn identity_map_intel(
    memory: &mut PhysicalMemory,
    level4: u64,
    start: u64,
    end: u64,
    arena: &mut TableArena,
) -> (r: Result<(), Error>)
    requires
        old(memory).wf(),
        old(arena).wf(old(memory)@),
        level4 % 0x1000 == 0,
        end % 0x1000 == 0,
        start % 0x1000 == 0,
    ensures
        final(memory).wf(),
        final(arena).wf(final(memory)@),
        ({
            let edited = identity_mapped(
                old(memory)@,
                *old(arena),
                level4,
                start as int,
                end as int,
            );
            &&& final(memory)@ == edited.memory
            &&& *final(arena) == edited.arena
            &&& r == (match edited.result {
                Ok(_) => Ok::<(), Error>(()),
                Err(e) => Err(e),
            })
        }),
{
    let mut address: u64 = start;
    while address < end
        invariant
            memory.wf(),
            arena.wf(memory@),
            level4 % 0x1000 == 0,
            end % 0x1000 == 0,
            address % 0x1000 == 0,
            identity_mapped(old(memory)@, *old(arena), level4, start as int, end as int)
                == identity_mapped(memory@, *arena, level4, address as int, end as int),
        decreases end - address,
    {
        let size: u64 = identity_map_step(memory, level4, address, end, arena)?;
        address += size;
    }
    Ok(())
}

/// The second-level root of a requester that firmware reserved memory for.
#[verifier::opaque]
pub open spec fn with_reserved_context(
    m: Map<int, u64>,
    arena: TableArena,
    context_table: u64,
    index: int,
) -> Edited {
    let at = context_at(context_table, index);
    if !m.dom().contains(at) || !m.dom().contains(at + 8) {
        failed(Error::InvalidResources, m, arena)
    } else if m[at] & CONTEXT_ADDRESS != 0 {
        Edited { result: Ok(m[at] & CONTEXT_ADDRESS), memory: m, arena }
    } else {
        let fresh = allocated(m, arena);
        match fresh.result {
            Err(_) => fresh,
            Ok(page) => Edited {
                memory: fresh.memory.insert(
                    at + 8,
                    intel_context_high(INTEL_RESERVED_DOMAIN),
                ).insert(at, page | INTEL_PRESENT),
                ..fresh
            },
        }
    }
}

/// The upper word of the context entry of a domain.
pub open spec fn intel_context_high(domain_id: u16) -> u64 {
    (domain_id as u64 * 0x100) as u64 | INTEL_ADDRESS_WIDTH
}

/// A reserved range that the tables can hold.
pub open spec fn is_reserved_range(mapping: ReservedMapping) -> bool {
    &&& mapping.base % 0x1000 == 0
    &&& mapping.limit % 0x1000 == 0xfff
    &&& mapping.base <= mapping.limit < PHYSICAL_LIMIT
}

/// One reserved range added to the tables.
pub open spec fn with_reserved_range(
    m: Map<int, u64>,
    arena: TableArena,
    root_table: u64,
    mapping: ReservedMapping,
) -> Edited {
    if !is_reserved_range(mapping) {
        failed(Error::InvalidTable, m, arena)
    } else {
        let root = with_root_entry(m, arena, root_table, mapping.requester as int / 256);
        match root.result {
            Err(_) => root,
            Ok(context_table) => {
                let context = with_reserved_context(
                    root.memory,
                    root.arena,
                    context_table,
                    mapping.requester as int % 256,
                );
                match context.result {
                    Err(_) => context,
                    Ok(second_level) => identity_mapped(
                        context.memory,
                        context.arena,
                        second_level,
                        mapping.base as int,
                        mapping.limit + 1,
                    ),
                }
            },
        }
    }
}

/// The first `n` reserved ranges of segment zero added to the tables.
pub open spec fn with_reserved_ranges(
    m: Map<int, u64>,
    arena: TableArena,
    root_table: u64,
    mappings: Seq<ReservedMapping>,
    n: int,
) -> Edited
    decreases n,
{
    if n <= 0 {
        Edited { result: Ok(0), memory: m, arena }
    } else {
        let before = with_reserved_ranges(m, arena, root_table, mappings, n - 1);
        match before.result {
            Err(_) => before,
            Ok(_) => if mappings[n - 1].segment != 0 {
                before
            } else {
                with_reserved_range(before.memory, before.arena, root_table, mappings[n - 1])
            },
        }
    }
}

/// The pages of a unit's tables, the root table taken.
pub open spec fn intel_arena(root_table: u64) -> TableArena {
    TableArena { base: root_table, next_page: 1, page_count: INTEL_TABLE_PAGES }
}

/// Once a range was refused, so is the rest.
proof fn lemma_refused(
    m: Map<int, u64>,
    arena: TableArena,
    root_table: u64,
    mappings: Seq<ReservedMapping>,
    n: int,
    k: int,
)
    requires
        0 <= n <= k,
        with_reserved_ranges(m, arena, root_table, mappings, n).result is Err,
    ensures
        with_reserved_ranges(m, arena, root_table, mappings, k) == with_reserved_ranges(
            m,
            arena,
            root_table,
            mappings,
            n,
        ),
    decreases k,
{
    if n < k {
        lemma_refused(m, arena, root_table, mappings, n, k - 1);
    }
}

/// Finds or makes the second-level root of a requester that firmware reserved
/// memory for.
fn ensure_reserved_context(
    memory: &mut PhysicalMemory,
    context_table: u64,
    index: u64,
    arena: &mut TableArena,
) -> (r: Result<u64, Error>)
    requires
        old(memory).wf(),
        old(arena).wf(old(memory)@),
        context_table % 0x1000 == 0,
        index < 256,
    ensures
        final(memory).wf(),
        final(arena).wf(final(memory)@),
        (Edited { result: r, memory: final(memory)@, arena: *final(arena) })
            == with_reserved_context(old(memory)@, *old(arena), context_table, index as int),
        r matches Ok(child) ==> child % 0x1000 == 0 && child > 0,
{
    reveal(with_reserved_context);
    let at: u64 = context_table + index * 16;
    let current: u64 = read_owned(memory, at)?;
    read_owned(memory, at + 8)?;
    proof {
        lemma_masked(current);
    }
    let second_level: u64 = current & CONTEXT_ADDRESS;
    if second_level != 0 {
        return Ok(second_level);
    }
    let page: u64 = arena.allocate(memory)?;
    memory.write(at + 8, (INTEL_RESERVED_DOMAIN as u64 * 0x100) | INTEL_ADDRESS_WIDTH);
    memory.write(at, page | INTEL_PRESENT);
    Ok(page)
}

/// Adds one reserved range to the tables.
fn map_reserved_range(
    memory: &mut PhysicalMemory,
    arena: &mut TableArena,
    root_table: u64,
    mapping: &ReservedMapping,
) -> (r: Result<(), Error>)
    requires
        old(memory).wf(),
        old(arena).wf(old(memory)@),
        root_table % 0x1000 == 0,
    ensures
        final(memory).wf(),
        final(arena).wf(final(memory)@),
        ({
            let edited = with_reserved_range(old(memory)@, *old(arena), root_table, *mapping);
            &&& final(memory)@ == edited.memory
            &&& *final(arena) == edited.arena
            &&& r == (match edited.result {
                Ok(_) => Ok::<(), Error>(()),
                Err(e) => Err(e),
            })
        }),
{
    if mapping.base % PAGE_SIZE != 0 || mapping.limit % PAGE_SIZE != 0xfff || mapping.limit
        < mapping.base || mapping.limit >= PHYSICAL_LIMIT {
        return Err(Error::InvalidTable);
    }
    let bus: u64 = mapping.requester as u64 / 256;
    let index: u64 = mapping.requester as u64 % 256;
    let context_table: u64 = ensure_root_entry(memory, root_table, bus, arena)?;
    let second_level: u64 = ensure_reserved_context(memory, context_table, index, arena)?;
    identity_map_intel(memory, second_level, mapping.base, mapping.limit + 1, arena)
}

/// Builds the tables of a unit: only the requesters that firmware reserved
/// memory for reach anything, and only that memory. Gives the first free page.
pub fn build_intel_tables(
    memory: &mut PhysicalMemory,
    root_table: u64,
    mappings: &[ReservedMapping],
) -> (r: Result<usize, Error>)
    requires
        old(memory).wf(),
        intel_arena(root_table).wf(old(memory)@),
    ensures
        final(memory).wf(),
        intel_arena(root_table).wf(final(memory)@),
        ({
            let edited = with_reserved_ranges(
                old(memory)@,
                intel_arena(root_table),
                root_table,
                mappings@,
                mappings@.len() as int,
            );
            &&& final(memory)@ == edited.memory
            &&& r == (match edited.result {
                Ok(_) => Ok::<usize, Error>(edited.arena.next_page),
                Err(e) => Err(e),
            })
        }),
        r matches Ok(next) ==> 1 <= next <= INTEL_TABLE_PAGES,
{
    let mut arena = TableArena { base: root_table, next_page: 1, page_count: INTEL_TABLE_PAGES };
    let mut i: usize = 0;
    while i < mappings.len()
        invariant
            i <= mappings@.len(),
            memory.wf(),
            arena.wf(memory@),
            arena.base == root_table,
            arena.page_count == INTEL_TABLE_PAGES,
            arena.next_page >= 1,
            (Edited { result: Ok(0), memory: memory@, arena }) == (Edited {
                result: Ok(0),
                ..with_reserved_ranges(
                    old(memory)@,
                    intel_arena(root_table),
                    root_table,
                    mappings@,
                    i as int,
                )
            }),
            with_reserved_ranges(
                old(memory)@,
                intel_arena(root_table),
                root_table,
                mappings@,
                i as int,
            ).result is Ok,
        decreases mappings@.len() - i,
    {
        if mappings[i].segment == 0 {
            let ghost before = (memory@, arena);
            let done = map_reserved_range(memory, &mut arena, root_table, &mappings[i]);
            proof {
                lemma_range_keeps_arena(before.0, before.1, root_table, mappings@[i as int]);
            }
            if let Err(error) = done {
                proof {
                    lemma_refused(
                        old(memory)@,
                        intel_arena(root_table),
                        root_table,
                        mappings@,
                        i + 1,
                        mappings@.len() as int,
                    );
                }
                return Err(error);
            }
        }
        i += 1;
    }
    Ok(arena.next_page)
}

/// Pages are only ever taken from the arena's end.
proof fn lemma_child_keeps_arena(
    m: Map<int, u64>,
    arena: TableArena,
    at: int,
    mask: u64,
    flags: u64,
)
    requires
        arena.next_page <= arena.page_count,
    ensures
        ({
            let after = with_child(m, arena, at, mask, flags).arena;
            &&& after.base == arena.base
            &&& after.page_count == arena.page_count
            &&& arena.next_page <= after.next_page <= arena.page_count
        }),
{
}

/// An identity mapping only takes pages from the arena's end.
pub proof fn lemma_identity_keeps_arena(
    m: Map<int, u64>,
    arena: TableArena,
    level4: u64,
    address: int,
    end: int,
)
    requires
        arena.next_page <= arena.page_count,
    ensures
        ({
            let after = identity_mapped(m, arena, level4, address, end).arena;
            &&& after.base == arena.base
            &&& after.page_count == arena.page_count
            &&& arena.next_page <= after.next_page <= arena.page_count
        }),
    decreases
            (if end > address {
                end - address
            } else {
                0
            }),
{
    reveal(identity_step);
    reveal(identity_leaf);
    if address < end {
        let step = identity_step(m, arena, level4, address, end);
        if let Ok(size) = step.result {
            if size > 0 {
                lemma_identity_keeps_arena(step.memory, step.arena, level4, address + size, end);
            }
        }
    }
}

proof fn lemma_range_keeps_arena(
    m: Map<int, u64>,
    arena: TableArena,
    root_table: u64,
    mapping: ReservedMapping,
)
    requires
        arena.next_page <= arena.page_count,
    ensures
        ({
            let after = with_reserved_range(m, arena, root_table, mapping).arena;
            &&& after.base == arena.base
            &&& after.page_count == arena.page_count
            &&& arena.next_page <= after.next_page <= arena.page_count
        }),
{
    reveal(with_reserved_context);
    if is_reserved_range(mapping) {
        let root = with_root_entry(m, arena, root_table, mapping.requester as int / 256);
        lemma_child_keeps_arena(
            m,
            arena,
            context_at(root_table, mapping.requester as int / 256),
            CONTEXT_ADDRESS,
            INTEL_PRESENT,
        );
        if let Ok(context_table) = root.result {
            let context = with_reserved_context(
                root.memory,
                root.arena,
                context_table,
                mapping.requester as int % 256,
            );
            if let Ok(second_level) = context.result {
                lemma_identity_keeps_arena(
                    context.memory,
                    context.arena,
                    second_level,
                    mapping.base as int,
                    mapping.limit + 1,
                );
            }
        }
    }
}

/// The flags of an entry that leads to a table of the given level.
pub open spec fn dma_link_flags(kind: IommuKind, child_level: u64) -> u64 {
    match kind {
        IommuKind::IntelVtd => INTEL_READ_WRITE,
        IommuKind::AmdVi => AMD_PTE_PRESENT | AMD_PTE_READ_WRITE | ((child_level * 0x200) as u64),
    }
}

/// The flags of an entry that maps a page of a domain.
pub open spec fn dma_leaf_flags(kind: IommuKind) -> u64 {
    match kind {
        IommuKind::IntelVtd => INTEL_READ_WRITE,
        IommuKind::AmdVi => AMD_PTE_PRESENT | AMD_PTE_READ_WRITE,
    }
}

/// One page of a domain mapped.
#[verifier::opaque]
pub open spec fn domain_step(
    kind: IommuKind,
    m: Map<int, u64>,
    arena: TableArena,
    level4: u64,
    host_base: int,
    iova: int,
) -> Edited {
    let third = with_child(
        m,
        arena,
        entry_at(level4, iova / 0x80_0000_0000 % 512),
        ENTRY_ADDRESS,
        dma_link_flags(kind, 3),
    );
    match third.result {
        Err(_) => third,
        Ok(level3) => {
            let second = with_child(
                third.memory,
                third.arena,
                entry_at(level3, iova / 0x4000_0000 % 512),
                ENTRY_ADDRESS,
                dma_link_flags(kind, 2),
            );
            match second.result {
                Err(_) => second,
                Ok(level2) => {
                    let first = with_child(
                        second.memory,
                        second.arena,
                        entry_at(level2, iova / 0x20_0000 % 512),
                        ENTRY_ADDRESS,
                        dma_link_flags(kind, 1),
                    );
                    match first.result {
                        Err(_) => first,
                        Ok(level1) => with_leaf(
                            first.memory,
                            first.arena,
                            entry_at(level1, iova / 0x1000 % 512),
                            (host_base + iova) as u64 | dma_leaf_flags(kind),
                            PAGE_SIZE,
                        ),
                    }
                },
            }
        },
    }
}

/// The pages of a domain from `iova` on mapped.
pub open spec fn domain_mapped(
    kind: IommuKind,
    m: Map<int, u64>,
    arena: TableArena,
    level4: u64,
    host_base: int,
    iova: int,
    size: int,
) -> Edited
    decreases
            (if size > iova {
                size - iova
            } else {
                0
            }),
{
    if iova >= size {
        Edited { result: Ok(0), memory: m, arena }
    } else {
        let step = domain_step(kind, m, arena, level4, host_base, iova);
        match step.result {
            Err(_) => step,
            Ok(_) => domain_mapped(
                kind,
                step.memory,
                step.arena,
                level4,
                host_base,
                iova + 0x1000,
                size,
            ),
        }
    }
}

fn link_flags(kind: IommuKind, child_level: u64) -> (r: u64)
    requires
        child_level <= 3,
    ensures
        r == dma_link_flags(kind, child_level),
{
    match kind {
        IommuKind::IntelVtd => INTEL_READ_WRITE,
        IommuKind::AmdVi => AMD_PTE_PRESENT | AMD_PTE_READ_WRITE | (child_level * 0x200),
    }
}

/// Maps one page of a domain.
#[verifier::spinoff_prover]
#[verifier::rlimit(60)]
fn map_domain_page(
    kind: IommuKind,
    memory: &mut PhysicalMemory,
    level4: u64,
    host_base: u64,
    iova: u64,
    arena: &mut TableArena,
) -> (r: Result<u64, Error>)
    requires
        old(memory).wf(),
        old(arena).wf(old(memory)@),
        level4 % 0x1000 == 0,
        host_base + iova <= u64::MAX,
    ensures
        final(memory).wf(),
        final(arena).wf(final(memory)@),
        (Edited { result: r, memory: final(memory)@, arena: *final(arena) }) == domain_step(
            kind,
            old(memory)@,
            *old(arena),
            level4,
            host_base as int,
            iova as int,
        ),
{
    reveal(domain_step);
    let level3: u64 = arena.ensure_child(
        memory,
        level4 + iova / 0x80_0000_0000 % 512 * 8,
        ENTRY_ADDRESS,
        link_flags(kind, 3),
    )?;
    let level2: u64 = arena.ensure_child(
        memory,
        level3 + iova / 0x4000_0000 % 512 * 8,
        ENTRY_ADDRESS,
        link_flags(kind, 2),
    )?;
    let level1: u64 = arena.ensure_child(
        memory,
        level2 + iova / LARGE_PAGE_SIZE % 512 * 8,
        ENTRY_ADDRESS,
        link_flags(kind, 1),
    )?;
    let leaf: u64 = level1 + iova / PAGE_SIZE % 512 * 8;
    read_owned(memory, leaf)?;
    let flags: u64 = match kind {
        IommuKind::IntelVtd => INTEL_READ_WRITE,
        IommuKind::AmdVi => AMD_PTE_PRESENT | AMD_PTE_READ_WRITE,
    };
    memory.write(leaf, (host_base + iova) | flags);
    Ok(PAGE_SIZE)
}

/// Maps the memory of a domain from device address zero on.
pub fn map_domain_memory(
    kind: IommuKind,
    memory: &mut PhysicalMemory,
    level4: u64,
    host_base: u64,
    size: u64,
    arena: &mut TableArena,
) -> (r: Result<(), Error>)
    requires
        old(memory).wf(),
        old(arena).wf(old(memory)@),
        level4 % 0x1000 == 0,
        size % 0x1000 == 0,
        host_base + size <= u64::MAX,
    ensures
        final(memory).wf(),
        final(arena).wf(final(memory)@),
        ({
            let edited = domain_mapped(
                kind,
                old(memory)@,
                *old(arena),
                level4,
                host_base as int,
                0,
                size as int,
            );
            &&& final(memory)@ == edited.memory
            &&& *final(arena) == edited.arena
            &&& r == (match edited.result {
                Ok(_) => Ok::<(), Error>(()),
                Err(e) => Err(e),
            })
        }),
{
    let mut iova: u64 = 0;
    while iova < size
        invariant
            memory.wf(),
            arena.wf(memory@),
            level4 % 0x1000 == 0,
            size % 0x1000 == 0,
            iova % 0x1000 == 0,
            iova <= size,
            host_base + size <= u64::MAX,
            domain_mapped(
                kind,
                old(memory)@,
                *old(arena),
                level4,
                host_base as int,
                0,
                size as int,
            ) == domain_mapped(
                kind,
                memory@,
                *arena,
                level4,
                host_base as int,
                iova as int,
                size as int,
            ),
        decreases size - iova,
    {
        map_domain_page(kind, memory, level4, host_base, iova, arena)?;
        iova += PAGE_SIZE;
    }
    Ok(())
}

/// Maps a reserved range of a requester into the tables of its domain.
pub open spec fn reserved_identity(
    m: Map<int, u64>,
    arena: TableArena,
    root: u64,
    base: int,
    limit: int,
) -> Edited {
    if base % 0x1000 != 0 || limit % 0x1000 != 0xfff || limit < base || limit == u64::MAX {
        failed(Error::InvalidResources, m, arena)
    } else {
        identity_mapped(m, arena, root, base, limit + 1)
    }
}

pub fn map_domain_reserved_identity(
    memory: &mut PhysicalMemory,
    arena: &mut TableArena,
    root: u64,
    base: u64,
    limit: u64,
) -> (r: Result<(), Error>)
    requires
        old(memory).wf(),
        old(arena).wf(old(memory)@),
        root % 0x1000 == 0,
    ensures
        final(memory).wf(),
        final(arena).wf(final(memory)@),
        ({
            let edited = reserved_identity(
                old(memory)@,
                *old(arena),
                root,
                base as int,
                limit as int,
            );
            &&& final(memory)@ == edited.memory
            &&& *final(arena) == edited.arena
            &&& r == (match edited.result {
                Ok(_) => Ok::<(), Error>(()),
                Err(e) => Err(e),
            })
        }),
{
    if base % PAGE_SIZE != 0 || limit % PAGE_SIZE != 0xfff || limit < base || limit == u64::MAX {
        return Err(Error::InvalidResources);
    }
    identity_map_intel(memory, root, base, limit + 1, arena)
}

/// A requester connected to the tables of a domain.
pub open spec fn intel_attached(
    m: Map<int, u64>,
    arena: TableArena,
    requester: u16,
    domain_id: u16,
    root: u64,
) -> Edited {
    let entry = with_root_entry(m, arena, arena.base, requester as int / 256);
    match entry.result {
        Err(_) => entry,
        Ok(context_table) => {
            let at = context_at(context_table, requester as int % 256);
            if !entry.memory.dom().contains(at) || !entry.memory.dom().contains(at + 8) {
                failed(Error::InvalidResources, entry.memory, entry.arena)
            } else if entry.memory[at] & INTEL_PRESENT != 0 {
                failed(Error::InvalidResources, entry.memory, entry.arena)
            } else {
                Edited {
                    memory: entry.memory.insert(at + 8, intel_context_high(domain_id)).insert(
                        at,
                        root | INTEL_PRESENT,
                    ),
                    ..entry
                }
            }
        },
    }
}

/// Connects a requester to the tables of a domain. The unit's caches must be
/// invalidated afterwards.
pub fn attach_intel_requester(
    memory: &mut PhysicalMemory,
    arena: &mut TableArena,
    requester: u16,
    domain_id: u16,
    root: u64,
) -> (r: Result<(), Error>)
    requires
        old(memory).wf(),
        old(arena).wf(old(memory)@),
    ensures
        final(memory).wf(),
        final(arena).wf(final(memory)@),
        ({
            let edited = intel_attached(
                old(memory)@,
                *old(arena),
                requester,
                domain_id,
                root,
            );
            &&& final(memory)@ == edited.memory
            &&& *final(arena) == edited.arena
            &&& r == (match edited.result {
                Ok(_) => Ok::<(), Error>(()),
                Err(e) => Err(e),
            })
        }),
{
    let root_table: u64 = arena.base;
    let context_table: u64 = ensure_root_entry(memory, root_table, requester as u64 / 256, arena)?;
    let at: u64 = context_table + requester as u64 % 256 * 16;
    let current: u64 = read_owned(memory, at)?;
    read_owned(memory, at + 8)?;
    if current & INTEL_PRESENT != 0 {
        return Err(Error::InvalidResources);
    }
    memory.write(at + 8, (domain_id as u64 * 0x100) | INTEL_ADDRESS_WIDTH);
    memory.write(at, root | INTEL_PRESENT);
    Ok(())
}

/// Where the context entry of a requester is, if its bus has a context table.
pub open spec fn intel_context(m: Map<int, u64>, root_table: u64, requester: u16) -> int {
    context_at(
        m[context_at(root_table, requester as int / 256)] & CONTEXT_ADDRESS,
        requester as int % 256,
    )
}

/// What becomes of detaching a requester: an error, or whether anything was there.
pub open spec fn intel_detachable(
    m: Map<int, u64>,
    root_table: u64,
    requester: u16,
    domain_id: u16,
) -> Result<bool, Error> {
    let root = context_at(root_table, requester as int / 256);
    let at = intel_context(m, root_table, requester);
    if !m.dom().contains(root) {
        Err(Error::InvalidResources)
    } else if m[root] & CONTEXT_ADDRESS == 0 {
        Ok(false)
    } else if !m.dom().contains(at) || !m.dom().contains(at + 8) {
        Err(Error::InvalidResources)
    } else if m[at] & INTEL_PRESENT == 0 {
        Ok(false)
    } else if m[at + 8] / 0x100 % 0x1_0000 != domain_id {
        Err(Error::InvalidResources)
    } else {
        Ok(true)
    }
}

/// Disconnects a requester from its domain, and says whether the unit's caches
/// must be invalidated.
pub fn detach_intel_requester(
    memory: &mut PhysicalMemory,
    root_table: u64,
    requester: u16,
    domain_id: u16,
) -> (r: Result<bool, Error>)
    requires
        old(memory).wf(),
        root_table % 0x1000 == 0,
    ensures
        final(memory).wf(),
        r == intel_detachable(old(memory)@, root_table, requester, domain_id),
        final(memory)@ == (if r == Ok::<bool, Error>(true) {
            let at = intel_context(old(memory)@, root_table, requester);
            old(memory)@.insert(at, 0).insert(at + 8, 0)
        } else {
            old(memory)@
        }),
{
    let entry: u64 = read_owned(memory, root_table + requester as u64 / 256 * 16)?;
    proof {
        lemma_masked(entry);
    }
    let context_table: u64 = entry & CONTEXT_ADDRESS;
    if context_table == 0 {
        return Ok(false);
    }
    let at: u64 = context_table + requester as u64 % 256 * 16;
    let low: u64 = read_owned(memory, at)?;
    let high: u64 = read_owned(memory, at + 8)?;
    if low & INTEL_PRESENT == 0 {
        return Ok(false);
    }
    if high / 0x100 % 0x1_0000 != domain_id as u64 {
        return Err(Error::InvalidResources);
    }
    memory.write(at, 0);
    memory.write(at + 8, 0);
    Ok(true)
}

/// A device-table entry that gives a domain's tables to a requester.
pub open spec fn device_entry(root: u64, domain_id: u16) -> Seq<u64> {
    seq![
        root | AMD_DTE_VALID | AMD_DTE_TRANSLATION_VALID | AMD_DTE_MODE_4_LEVEL
            | AMD_DTE_READ_WRITE,
        domain_id as u64,
        0u64,
        0u64,
    ]
}

pub fn amd_dte(root: u64, domain_id: u16) -> (r: [u64; 4])
    ensures
        r@ == device_entry(root, domain_id),
{
    let entry: [u64; 4] = [
        root | AMD_DTE_VALID | AMD_DTE_TRANSLATION_VALID | AMD_DTE_MODE_4_LEVEL
            | AMD_DTE_READ_WRITE,
        domain_id as u64,
        0,
        0,
    ];
    assert(entry@ =~= device_entry(root, domain_id));
    entry
}

/// The address of a requester's entry in the device table.
pub open spec fn device_at(device_table: u64, requester: u16) -> int {
    device_table + 32 * requester
}

/// The four words of a device-table entry stored.
pub open spec fn with_device_entry(m: Map<int, u64>, at: int, entry: Seq<u64>) -> Map<int, u64> {
    m.insert(at + 24, entry[3]).insert(at + 16, entry[2]).insert(at + 8, entry[1]).insert(
        at,
        entry[0],
    )
}

/// The four words of a device-table entry are owned.
pub open spec fn owns_device_entry(m: Map<int, u64>, at: int) -> bool {
    m.dom().contains(at) && m.dom().contains(at + 8) && m.dom().contains(at + 16)
        && m.dom().contains(at + 24)
}

fn device_entry_owned(memory: &PhysicalMemory, at: u64) -> (r: bool)
    requires
        memory.wf(),
        at <= u64::MAX - 24,
    ensures
        r == owns_device_entry(memory@, at as int),
{
    memory.contains(at) && memory.contains(at + 8) && memory.contains(at + 16) && memory.contains(
        at + 24,
    )
}

/// Whether a requester's entry is free.
pub open spec fn amd_attachable(m: Map<int, u64>, at: int) -> bool {
    owns_device_entry(m, at) && m[at] == 0
}

/// Connects a requester to the tables of a domain. The requester must be
/// invalidated afterwards.
pub fn attach_amd_requester(
    memory: &mut PhysicalMemory,
    device_table: u64,
    requester: u16,
    domain_id: u16,
    root: u64,
) -> (r: Result<(), Error>)
    requires
        old(memory).wf(),
        device_table < PHYSICAL_LIMIT,
    ensures
        final(memory).wf(),
        ({
            let at = device_at(device_table, requester);
            if amd_attachable(old(memory)@, at) {
                &&& r == Ok::<(), Error>(())
                &&& final(memory)@ == with_device_entry(
                    old(memory)@,
                    at,
                    device_entry(root, domain_id),
                )
            } else {
                &&& r == Err::<(), Error>(Error::InvalidResources)
                &&& final(memory)@ == old(memory)@
            }
        }),
{
    let at: u64 = device_table + requester as u64 * 32;
    if !device_entry_owned(memory, at) || memory.read(at) != 0 {
        return Err(Error::InvalidResources);
    }
    let entry = amd_dte(root, domain_id);
    memory.write(at + 24, entry[3]);
    memory.write(at + 16, entry[2]);
    memory.write(at + 8, entry[1]);
    memory.write(at, entry[0]);
    Ok(())
}

/// What becomes of detaching a requester: an error, or whether anything was there.
pub open spec fn amd_detachable(m: Map<int, u64>, at: int, domain_id: u16) -> Result<bool, Error> {
    if !owns_device_entry(m, at) {
        Err(Error::InvalidResources)
    } else if m[at] & AMD_DTE_VALID == 0 {
        Ok(false)
    } else if m[at + 8] % 0x1_0000 != domain_id {
        Err(Error::InvalidResources)
    } else {
        Ok(true)
    }
}

/// Disconnects a requester from its domain, and says whether the requester must
/// be invalidated.
pub fn detach_amd_requester(
    memory: &mut PhysicalMemory,
    device_table: u64,
    requester: u16,
    domain_id: u16,
) -> (r: Result<bool, Error>)
    requires
        old(memory).wf(),
        device_table < PHYSICAL_LIMIT,
    ensures
        final(memory).wf(),
        r == amd_detachable(old(memory)@, device_at(device_table, requester), domain_id),
        final(memory)@ == (if r == Ok::<bool, Error>(true) {
            with_device_entry(
                old(memory)@,
                device_at(device_table, requester),
                seq![0u64, 0u64, 0u64, 0u64],
            )
        } else {
            old(memory)@
        }),
{
    let at: u64 = device_table + requester as u64 * 32;
    if !device_entry_owned(memory, at) {
        return Err(Error::InvalidResources);
    }
    if memory.read(at) & AMD_DTE_VALID == 0 {
        return Ok(false);
    }
    if memory.read(at + 8) % 0x1_0000 != domain_id as u64 {
        return Err(Error::InvalidResources);
    }
    memory.write(at, 0);
    memory.write(at + 8, 0);
    memory.write(at + 16, 0);
    memory.write(at + 24, 0);
    assert(memory@ =~= with_device_entry(old(memory)@, at as int, seq![0u64, 0u64, 0u64, 0u64]));
    Ok(true)
}

proof fn lemma_written_bits(root: u64, domain: u64, level: u64, x: u64)
    requires
        root % 0x1000 == 0,
        root < PHYSICAL_LIMIT,
        domain < 0x1_0000,
        level < 8,
    ensures
        root | 1 == root + 1,
        root | 3 == root + 3,
        root | 0x83 == root + 0x83 || root % 0x20_0000 != 0,
        root | 1 | 2 | 0x800 | 0x6000_0000_0000_0000 == root + 0x6000_0000_0000_0803,
        ((domain * 0x100) as u64) | 2 == domain * 0x100 + 2,
        1u64 | 0x6000_0000_0000_0000 == 0x6000_0000_0000_0001u64,
        1u64 | 0x6000_0000_0000_0000 | ((level * 0x200) as u64) == 0x6000_0000_0000_0001 + 0x200
            * level,
        (x & 1 == 0) == (x % 2 == 0),
{
    let high = (domain * 0x100) as u64;
    let place = (level * 0x200) as u64;
    assert(root | 1 == root + 1 && root | 3 == root + 3 && root | 0x83 == root + 0x83 && root | 1
        | 2 | 0x800 | 0x6000_0000_0000_0000 == root + 0x6000_0000_0000_0803 && high | 2 == high + 2
        && 1u64 | 0x6000_0000_0000_0000 == 0x6000_0000_0000_0001u64 && 1u64 | 0x6000_0000_0000_0000
        | place == 0x6000_0000_0000_0001 + place && (x & 1 == 0) == (x % 2 == 0)) by (bit_vector)
        requires
            root % 0x1000 == 0,
            root < 0x10_0000_0000_0000,
            high % 0x100 == 0,
            high < 0x100_0000,
            place % 0x200 == 0,
            place < 0x1000,
    ;
}

/// The entries of a domain's tables let a device read and write. An AMD-Vi unit is told
/// that an entry is present, and in a link the level of the table that it leads to.
pub proof fn law_dma_entries_have_their_rights(kind: IommuKind, level: u64)
    requires
        1 <= level <= 3,
    ensures
        kind is IntelVtd ==> dma_leaf_flags(kind) == 1 + 2 && dma_link_flags(kind, level) == 1 + 2,
        kind is AmdVi ==> {
            &&& dma_leaf_flags(kind) == 1 + 0x2000_0000_0000_0000 + 0x4000_0000_0000_0000
            &&& dma_link_flags(kind, level) == dma_leaf_flags(kind) + 0x200 * level
        },
{
    lemma_written_bits(0, 0, level, 0);
}

/// A context entry names the root of the domain's tables and is present; its upper word
/// names the domain and says that addresses have 48 bits. A device-table entry is valid,
/// lets its device read and write through tables of four levels, and names their root and
/// the domain.
pub proof fn law_requester_entries_name_the_domain(root: u64, domain_id: u16)
    requires
        root % 0x1000 == 0,
        root < PHYSICAL_LIMIT,
    ensures
        root | INTEL_PRESENT == root + 1,
        intel_context_high(domain_id) == 0x100 * domain_id + 2,
        device_entry(root, domain_id).len() == 4,
        device_entry(root, domain_id)[0] == root + 1 + 2 + 0x200 * 4 + 0x2000_0000_0000_0000
            + 0x4000_0000_0000_0000,
        device_entry(root, domain_id)[1] == domain_id,
        device_entry(root, domain_id)[2] == 0,
        device_entry(root, domain_id)[3] == 0,
{
    lemma_written_bits(root, domain_id as u64, 0, 0);
}

/// Where the entries of a requester are: eight bytes for each page of a table, sixteen for
/// each bus and for each function of a bus, thirty-two for each requester of an AMD-Vi
/// unit, whose four words are written in their order.
pub proof fn law_entries_are_in_their_places(
    m: Map<int, u64>,
    table: u64,
    index: int,
    requester: u16,
    entry: Seq<u64>,
    w: int,
)
    ensures
        entry_at(table, index) == table + 8 * index,
        context_at(table, index) == table + 16 * index,
        device_at(table, requester) == table + 32 * requester,
        ({
            let at = device_at(table, requester);
            let after = with_device_entry(m, at, entry);
            &&& after[at] == entry[0]
            &&& after[at + 8] == entry[1]
            &&& after[at + 16] == entry[2]
            &&& after[at + 24] == entry[3]
            &&& w != at && w != at + 8 && w != at + 16 && w != at + 24 ==> after[w] == m[w]
        }),
{
}

/// A table that an entry leads to already is used as it is. For an entry that leads
/// nowhere the next free page is cleared and the entry is made to name it; without a free
/// page or with an entry that is not owned nothing changes.
pub proof fn law_tables_are_made_once(
    m: Map<int, u64>,
    arena: TableArena,
    at: int,
    mask: u64,
    flags: u64,
    w: int,
)
    requires
        arena.wf(m),
    ensures
        ({
            let after = with_child(m, arena, at, mask, flags);
            match after.result {
                Ok(page) => if m[at] & mask != 0 {
                    &&& page == m[at] & mask
                    &&& after.memory == m
                    &&& after.arena == arena
                } else {
                    &&& page == arena.base + 0x1000 * arena.next_page
                    &&& after.arena.next_page == arena.next_page + 1
                    &&& arena.next_page < arena.page_count
                    &&& after.memory[at] == page | flags
                    &&& m.dom().contains(w) && w % 8 == 0 && page <= w < page + 0x1000 && w != at
                        ==> after.memory[w] == 0
                    &&& m.dom().contains(w) && !(page <= w < page + 0x1000) && w != at
                        ==> after.memory[w] == m[w]
                },
                Err(e) => {
                    &&& after.memory == m
                    &&& after.arena == arena
                    &&& e == Error::InvalidResources <==> !m.dom().contains(at)
                    &&& e == Error::TableExhausted <==> m.dom().contains(at) && m[at] & mask == 0
                        && arena.next_page >= arena.page_count
                },
            }
        }),
{
}

/// A requester is detached exactly where its entry is present and names the domain. One
/// that is present for another domain is refused, and one that is not there is let be.
pub proof fn law_only_the_own_requester_is_detached(
    m: Map<int, u64>,
    table: u64,
    requester: u16,
    domain_id: u16,
)
    ensures
        ({
            let at = device_at(table, requester);
            let owned = m.dom().contains(at) && m.dom().contains(at + 8) && m.dom().contains(
                at + 16,
            ) && m.dom().contains(at + 24);
            let present = m[at] % 2 == 1;
            let own = m[at + 8] % 0x1_0000 == domain_id;
            &&& amd_detachable(m, at, domain_id) == Ok::<bool, Error>(true) <==> owned && present
                && own
            &&& amd_detachable(m, at, domain_id) == Ok::<bool, Error>(false) <==> owned && !present
            &&& amd_detachable(m, at, domain_id) matches Err(e) ==> e == Error::InvalidResources
        }),
        ({
            let root = table + 16 * (requester as int / 256);
            let context = m[root] & 0xffff_ffff_ffff_f000;
            let at = context + 16 * (requester as int % 256);
            let owned = m.dom().contains(at) && m.dom().contains(at + 8);
            let present = m[at] % 2 == 1;
            let own = m[at + 8] / 0x100 % 0x1_0000 == domain_id;
            let verdict = intel_detachable(m, table, requester, domain_id);
            &&& verdict == Ok::<bool, Error>(true) <==> m.dom().contains(root) && context != 0
                && owned && present && own
            &&& verdict == Ok::<bool, Error>(false) <==> m.dom().contains(root) && (context == 0
                || owned && !present)
            &&& verdict matches Err(e) ==> e == Error::InvalidResources
        }),
{
    lemma_written_bits(0, 0, 0, m[device_at(table, requester)]);
    lemma_written_bits(0, 0, 0, m[intel_context(m, table, requester)]);
}

/// A requester is attached only where its context entry is not present: the entry then
/// names the root and the domain, and no other word that was in use has changed but for a
/// new context table of its bus.
pub proof fn law_attached_context_names_the_domain(
    m: Map<int, u64>,
    arena: TableArena,
    requester: u16,
    domain_id: u16,
    root: u64,
)
    requires
        arena.wf(m),
        root % 0x1000 == 0,
        root < PHYSICAL_LIMIT,
        intel_attached(m, arena, requester, domain_id, root).result is Ok,
    ensures
        ({
            let bus = with_root_entry(m, arena, arena.base, requester as int / 256);
            let after = intel_attached(m, arena, requester, domain_id, root);
            let at = bus.result->Ok_0 + 16 * (requester as int % 256);
            &&& bus.result is Ok
            &&& bus.memory[at] % 2 == 0
            &&& after.memory[at] == root + 1
            &&& after.memory[at + 8] == 0x100 * domain_id + 2
            &&& after.arena == bus.arena
            &&& forall|w: int|
                w != at && w != at + 8 && m.dom().contains(w) ==> #[trigger] after.memory[w]
                    == bus.memory[w]
        }),
{
    let bus = with_root_entry(m, arena, arena.base, requester as int / 256);
    let at = context_at(bus.result->Ok_0, requester as int % 256);
    lemma_written_bits(root, domain_id as u64, 0, bus.memory[at]);
}

/// A requester that firmware reserved memory for is put in the first domain, whose context
/// is present and says that addresses have 48 bits, on a table of its own; one that has a
/// table keeps it.
pub proof fn law_reserved_context_is_present(
    m: Map<int, u64>,
    arena: TableArena,
    context_table: u64,
    index: int,
)
    requires
        arena.wf(m),
        with_reserved_context(m, arena, context_table, index).result is Ok,
    ensures
        ({
            let at = context_table + 16 * index;
            let after = with_reserved_context(m, arena, context_table, index);
            let page = after.result->Ok_0;
            if m[at] & 0xffff_ffff_ffff_f000 != 0 {
                &&& page == m[at] & 0xffff_ffff_ffff_f000
                &&& after.memory == m
            } else {
                &&& page == arena.base + 0x1000 * arena.next_page
                &&& after.memory[at] == page + 1
                &&& after.memory[at + 8] == 0x100 + 2
            }
        }),
{
    reveal(with_reserved_context);
    let page = arena.page(arena.next_page as int);
    if arena.next_page < arena.page_count {
        lemma_written_bits(page as u64, 1, 0, 0);
    }
}

} // verus!
