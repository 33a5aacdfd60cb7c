//! Nested (second-stage) page tables of a Domain and its initial own tables.

use vstd::prelude::*;
use vstd::arithmetic::div_mod::lemma_div_denominator;

use crate::bits::lemma_entry;
use crate::physical::{cleared, covers, PhysicalMemory};
use crate::{BackendKind, Error};

pub mod hardware;
pub mod isolation;

verus! {

pub const PAGE_SIZE: u64 = 0x1000;

pub const ENTRY_COUNT: usize = 512;

pub const EPT_READ_WRITE_EXECUTE: u64 = 0b111;

pub const EPT_LEAF_WRITE_BACK: u64 = 0x37;

pub const EPT_DEVICE_READ_WRITE: u64 = 0b011;

pub const EPT_WRITE_BACK: u64 = 6;

pub const EPT_WALK_LENGTH_4: u64 = 0x18;

pub const EPT_SHARED_READ: u64 = 0x31;

pub const NPT_PRESENT_WRITE_USER: u64 = 0b111;

pub const NPT_PRESENT_USER_NO_EXECUTE: u64 = 0x8000_0000_0000_0005;

pub const NPT_DEVICE_READ_WRITE: u64 = 0x8000_0000_0000_001f;

/// The write permission, at the same place in both formats.
pub const NESTED_WRITABLE: u64 = 2;

/// Native Domains start in ring 0. Their initial identity map must remain
/// supervisor-only; the guest kernel creates user-accessible mappings explicitly
/// when it constructs a process address space.
pub const GUEST_PAGE_TABLE_FLAGS: u64 = 0b011;

pub const GUEST_LARGE_PAGE_FLAGS: u64 = 0x83;

pub const LARGE_PAGE_SIZE: u64 = 0x20_0000;

pub const NESTED_LARGE_PAGE: u64 = 0x80;

/// The address bits of a table entry.
pub const ENTRY_ADDRESS: u64 = 0x000f_ffff_ffff_f000;

/// What one level-2 page spans.
pub const GIGABYTE: u64 = 0x4000_0000;

/// One past the highest physical address.
pub const PHYSICAL_LIMIT: u64 = 0x10_0000_0000_0000;

/// The pages that a nested page table is made of, and the Domain's RAM.
#[derive(Clone, Copy, Debug, PartialEq, Eq, Structural)]
pub struct NestedPageResources {
    pub root: u64,
    pub level3: u64,
    pub level3_pages: usize,
    pub level2: u64,
    pub level2_pages: usize,
    pub level1: u64,
    pub level1_pages: usize,
    pub device_level1: u64,
    pub device_level1_pages: usize,
    pub device_state: u64,
    pub guest_base: u64,
    pub guest_pages: usize,
}

/// The address of word `index` of a table.
pub open spec fn slot(table: int, index: int) -> int {
    table + 8 * index
}

/// A table entry for the page at `address`.
pub open spec fn entry(address: int, flags: u64) -> u64 {
    address as u64 | flags
}

/// How many groups of 512 it takes to hold `n`.
pub open spec fn table_pages(n: int) -> int {
    (n + 511) / 512
}

pub open spec fn is_page(address: u64) -> bool {
    address != 0 && address % 0x1000 == 0
}

pub open spec fn apart(a: int, a_bytes: int, b: int, b_bytes: int) -> bool {
    a + a_bytes <= b || b + b_bytes <= a
}

impl NestedPageResources {
    /// Every page is aligned, and the counts fit each other.
    pub open spec fn is_valid(self) -> bool {
        &&& is_page(self.root)
        &&& is_page(self.level3)
        &&& is_page(self.level2)
        &&& is_page(self.level1)
        &&& is_page(self.device_level1)
        &&& is_page(self.device_state)
        &&& is_page(self.guest_base)
        &&& 1 <= self.guest_pages <= 512 * 512
        &&& 1 <= self.level2_pages <= 512 * 512
        &&& self.level3_pages == table_pages(self.level2_pages as int)
        &&& self.level1_pages == table_pages(self.guest_pages as int)
        &&& self.device_level1_pages != 0
    }

    /// The regions lie in physical memory.
    pub open spec fn is_bounded(self) -> bool {
        let l3 = 0x1000 * self.level3_pages;
        let l2 = 0x1000 * self.level2_pages;
        let l1 = 0x1000 * self.level1_pages;
        let dev = 0x1000 * self.device_level1_pages;
        let ram = 0x1000 * self.guest_pages;
        &&& self.root + 0x1000 <= PHYSICAL_LIMIT
        &&& self.level3 + l3 <= PHYSICAL_LIMIT
        &&& self.level2 + l2 <= PHYSICAL_LIMIT
        &&& self.level1 + l1 <= PHYSICAL_LIMIT
        &&& self.device_level1 + dev <= PHYSICAL_LIMIT
        &&& self.device_state + 0x1000 <= PHYSICAL_LIMIT
        &&& self.guest_base + ram <= PHYSICAL_LIMIT
    }

    /// The regions lie in physical memory and none overlaps another.
    pub open spec fn is_disjoint(self) -> bool {
        let l3 = 0x1000 * self.level3_pages;
        let l2 = 0x1000 * self.level2_pages;
        let l1 = 0x1000 * self.level1_pages;
        let dev = 0x1000 * self.device_level1_pages;
        let ram = 0x1000 * self.guest_pages;
        &&& self.is_bounded()
        &&& apart(self.root as int, 0x1000, self.level3 as int, l3)
        &&& apart(self.root as int, 0x1000, self.level2 as int, l2)
        &&& apart(self.root as int, 0x1000, self.level1 as int, l1)
        &&& apart(self.root as int, 0x1000, self.device_level1 as int, dev)
        &&& apart(self.root as int, 0x1000, self.device_state as int, 0x1000)
        &&& apart(self.root as int, 0x1000, self.guest_base as int, ram)
        &&& apart(self.level3 as int, l3, self.level2 as int, l2)
        &&& apart(self.level3 as int, l3, self.level1 as int, l1)
        &&& apart(self.level3 as int, l3, self.device_level1 as int, dev)
        &&& apart(self.level3 as int, l3, self.device_state as int, 0x1000)
        &&& apart(self.level3 as int, l3, self.guest_base as int, ram)
        &&& apart(self.level2 as int, l2, self.level1 as int, l1)
        &&& apart(self.level2 as int, l2, self.device_level1 as int, dev)
        &&& apart(self.level2 as int, l2, self.device_state as int, 0x1000)
        &&& apart(self.level2 as int, l2, self.guest_base as int, ram)
        &&& apart(self.level1 as int, l1, self.device_level1 as int, dev)
        &&& apart(self.level1 as int, l1, self.device_state as int, 0x1000)
        &&& apart(self.level1 as int, l1, self.guest_base as int, ram)
        &&& apart(self.device_level1 as int, dev, self.device_state as int, 0x1000)
        &&& apart(self.device_level1 as int, dev, self.guest_base as int, ram)
        &&& apart(self.device_state as int, 0x1000, self.guest_base as int, ram)
    }

    /// Every word of every region is mapped.
    pub open spec fn is_mapped(self, m: Map<int, u64>) -> bool {
        &&& covers(m, self.root as int, 0x1000)
        &&& covers(m, self.level3 as int, 0x1000 * self.level3_pages)
        &&& covers(m, self.level2 as int, 0x1000 * self.level2_pages)
        &&& covers(m, self.level1 as int, 0x1000 * self.level1_pages)
        &&& covers(m, self.device_level1 as int, 0x1000 * self.device_level1_pages)
        &&& covers(m, self.device_state as int, 0x1000)
        &&& covers(m, self.guest_base as int, 0x1000 * self.guest_pages)
    }

    /// Whether the address lies in one of the regions.
    pub open spec fn holds(self, a: int) -> bool {
        ||| self.root <= a < self.root + 0x1000
        ||| self.level3 <= a < self.level3 + 0x1000 * self.level3_pages
        ||| self.level2 <= a < self.level2 + 0x1000 * self.level2_pages
        ||| self.level1 <= a < self.level1 + 0x1000 * self.level1_pages
        ||| self.device_level1 <= a < self.device_level1 + 0x1000 * self.device_level1_pages
        ||| self.device_state <= a < self.device_state + 0x1000
        ||| self.guest_base <= a < self.guest_base + 0x1000 * self.guest_pages
    }

    pub fn validate(self) -> (r: Result<(), Error>)
        ensures
            r == (if self.is_valid() {
                Ok(())
            } else {
                Err(Error::InvalidPage)
            }),
    {
        if !page_valid(self.root) || !page_valid(self.level3) || !page_valid(self.level2)
            || !page_valid(self.level1) || !page_valid(self.device_level1) || !page_valid(
            self.device_state,
        ) || !page_valid(self.guest_base) {
            return Err(Error::InvalidPage);
        }
        let required_level1_pages: usize = div_ceil_512(self.guest_pages);
        let required_level3_pages: usize = div_ceil_512(self.level2_pages);
        if self.guest_pages == 0 || required_level1_pages > ENTRY_COUNT || required_level3_pages == 0
            || required_level3_pages > ENTRY_COUNT || self.level3_pages != required_level3_pages
            || self.level2_pages == 0 || self.level2_pages > ENTRY_COUNT * ENTRY_COUNT
            || self.level1_pages != required_level1_pages || self.device_level1_pages == 0 {
            return Err(Error::InvalidPage);
        }
        Ok(())
    }
}

fn page_valid(page: u64) -> (r: bool)
    ensures
        r == is_page(page),
{
    page != 0 && page % PAGE_SIZE == 0
}

/// How many groups of 512 it takes to hold `n`.
fn div_ceil_512(n: usize) -> (r: usize)
    ensures
        r == table_pages(n as int),
{
    if n % 512 == 0 {
        n / 512
    } else {
        n / 512 + 1
    }
}

/// The words of a mapped table are mapped.
pub proof fn lemma_slot_mapped(m: Map<int, u64>, table: int, bytes: int, index: int)
    requires
        covers(m, table, bytes),
        table % 8 == 0,
        0 <= index,
        8 * index < bytes,
    ensures
        m.dom().contains(slot(table, index)),
{
    assert(slot(table, index) % 8 == 0);
}

/// Writes `count` entries from the start of `table`, for the pages at `first`,
/// `first + stride` and so on.
fn write_run(
    memory: &mut PhysicalMemory,
    table: u64,
    count: usize,
    first: u64,
    stride: u64,
    flags: u64,
)
    requires
        old(memory).wf(),
        table % 8 == 0,
        table + 8 * count <= PHYSICAL_LIMIT,
        first + stride * count <= PHYSICAL_LIMIT,
        covers(old(memory)@, table as int, 8 * count),
    ensures
        final(memory).wf(),
        final(memory)@.dom() == old(memory)@.dom(),
        forall|i: int|
            0 <= i < count ==> #[trigger] final(memory)@[slot(table as int, i)] == entry(
                first + stride * i,
                flags,
            ),
        forall|a: int|
            old(memory)@.dom().contains(a) && !(table <= a < table + 8 * count)
                ==> #[trigger] final(memory)@[a] == old(memory)@[a],
{
    let mut i: usize = 0;
    while i < count
        invariant
            i <= count,
            memory.wf(),
            table % 8 == 0,
            table + 8 * count <= PHYSICAL_LIMIT,
            first + stride * count <= PHYSICAL_LIMIT,
            covers(old(memory)@, table as int, 8 * count),
            memory@.dom() =~= old(memory)@.dom(),
            forall|j: int|
                0 <= j < i ==> #[trigger] memory@[slot(table as int, j)] == entry(
                    first + stride * j,
                    flags,
                ),
            forall|a: int| !(table <= a < table + 8 * i) ==> #[trigger] memory@[a] == old(memory)@[a],
        decreases count - i,
    {
        assert(old(memory)@.dom().contains(table + 8 * i));
        proof {
            assert(stride * i <= stride * count && stride * i >= 0) by (nonlinear_arith)
                requires
                    i <= count,
                    stride >= 0,
            ;
        }
        let offset: u64 = stride * (i as u64);
        memory.write(table + 8 * (i as u64), (first + offset) | flags);
        i += 1;
    }
}

/// Rewrites the `words` words of a table: `count` entries for the pages at
/// `first`, `first + stride` and so on, and zeros behind them.
fn build_table(
    memory: &mut PhysicalMemory,
    table: u64,
    words: u64,
    count: usize,
    first: u64,
    stride: u64,
    flags: u64,
)
    requires
        old(memory).wf(),
        table % 8 == 0,
        count <= words,
        table + 8 * words <= PHYSICAL_LIMIT,
        first + stride * count <= PHYSICAL_LIMIT,
        covers(old(memory)@, table as int, 8 * words),
    ensures
        final(memory).wf(),
        final(memory)@.dom() == old(memory)@.dom(),
        forall|i: int|
            0 <= i < words ==> #[trigger] final(memory)@[slot(table as int, i)] == (if i < count {
                entry(first + stride * i, flags)
            } else {
                0
            }),
        forall|a: int|
            old(memory)@.dom().contains(a) && !(table <= a < table + 8 * words)
                ==> #[trigger] final(memory)@[a] == old(memory)@[a],
{
    memory.clear(table, words);
    assert(memory@.dom() =~= old(memory)@.dom());
    write_run(memory, table, count, first, stride, flags);
    assert forall|i: int| 0 <= i < words implies #[trigger] memory@[slot(table as int, i)] == (if i
        < count {
        entry(first + stride * i, flags)
    } else {
        0
    }) by {
        lemma_slot_mapped(old(memory)@, table as int, 8 * words, i);
    }
}

/// A Domain's second-stage translation, in the format of its backend.
#[derive(Clone, Copy, Debug, PartialEq, Eq)]
pub struct NestedPageTable {
    backend: BackendKind,
    resources: NestedPageResources,
}

/// The flags of an entry that points to a lower table.
pub open spec fn link_flags(backend: BackendKind) -> u64 {
    match backend {
        BackendKind::IntelVmx => EPT_READ_WRITE_EXECUTE,
        BackendKind::AmdSvm => NPT_PRESENT_WRITE_USER,
    }
}

/// The flags of a page of the Domain's own RAM.
pub open spec fn ram_flags(backend: BackendKind) -> u64 {
    match backend {
        BackendKind::IntelVmx => EPT_LEAF_WRITE_BACK,
        BackendKind::AmdSvm => NPT_PRESENT_WRITE_USER,
    }
}

/// The flags of a page that another Domain shares: never executable.
pub open spec fn shared_flags(backend: BackendKind, writable: bool) -> u64 {
    let read = match backend {
        BackendKind::IntelVmx => EPT_SHARED_READ,
        BackendKind::AmdSvm => NPT_PRESENT_USER_NO_EXECUTE,
    };
    if writable {
        read | NESTED_WRITABLE
    } else {
        read
    }
}

/// The flags of a device page: uncached and never executable.
pub open spec fn device_flags(backend: BackendKind) -> u64 {
    match backend {
        BackendKind::IntelVmx => EPT_DEVICE_READ_WRITE,
        BackendKind::AmdSvm => NPT_DEVICE_READ_WRITE,
    }
}

/// The flags of a device leaf that spans two megabytes.
pub open spec fn large_device_flags(backend: BackendKind) -> u64 {
    device_flags(backend) | NESTED_LARGE_PAGE
}

/// What a table that maps exactly the Domain's RAM looks like in memory.
pub open spec fn is_initialized(
    before: Map<int, u64>,
    after: Map<int, u64>,
    backend: BackendKind,
    r: NestedPageResources,
) -> bool {
    let link = link_flags(backend);
    &&& after.dom() == before.dom()
    &&& forall|i: int|
        0 <= i < 512 ==> #[trigger] after[slot(r.root as int, i)] == (if i < r.level3_pages {
            entry(r.level3 + 0x1000 * i, link)
        } else {
            0
        })
    &&& forall|i: int|
        0 <= i < 512 * r.level3_pages ==> #[trigger] after[slot(r.level3 as int, i)] == (if i == 0 {
            entry(r.level2 as int, link)
        } else {
            0
        })
    &&& forall|i: int|
        0 <= i < 512 * r.level2_pages ==> #[trigger] after[slot(r.level2 as int, i)] == (if i
            < r.level1_pages {
            entry(r.level1 + 0x1000 * i, link)
        } else {
            0
        })
    &&& forall|i: int|
        0 <= i < 512 * r.level1_pages ==> #[trigger] after[slot(r.level1 as int, i)] == (if i
            < r.guest_pages {
            entry(r.guest_base + 0x1000 * i, ram_flags(backend))
        } else {
            0
        })
    &&& forall|i: int|
        0 <= i < 512 * r.device_level1_pages ==> #[trigger] after[slot(r.device_level1 as int, i)]
            == 0
    &&& forall|i: int| 0 <= i < 512 ==> #[trigger] after[slot(r.device_state as int, i)] == 0
    &&& forall|i: int|
        0 <= i < 512 * r.guest_pages ==> #[trigger] after[slot(r.guest_base as int, i)] == 0
    &&& forall|a: int|
        before.dom().contains(a) && !r.holds(a) ==> #[trigger] after[a] == before[a]
}

impl View for NestedPageTable {
    type V = NestedPageResources;

    closed spec fn view(&self) -> NestedPageResources {
        self.resources
    }
}

impl NestedPageTable {
    pub closed spec fn spec_backend(&self) -> BackendKind {
        self.backend
    }

    /// The table was built from valid, disjoint regions.
    pub open spec fn wf(&self) -> bool {
        self@.is_valid() && self@.is_bounded() && is_separate(self@)
    }

    /// Builds a four-level translation for the contiguous RAM owned by a Domain.
    /// No guest physical address outside that RAM is mapped.
    ///
    /// Every region of `resources` must be exclusively owned by mBoot for the
    /// lifetime of the returned table.
    #[verifier::spinoff_prover]
    pub fn initialize(
        backend: BackendKind,
        resources: NestedPageResources,
        memory: &mut PhysicalMemory,
    ) -> (r: Result<Self, Error>)
        requires
            old(memory).wf(),
            resources.is_valid() ==> resources.is_disjoint() && resources.is_mapped(old(memory)@),
        ensures
            final(memory).wf(),
            match r {
                Ok(t) => {
                    &&& resources.is_valid()
                    &&& t@ == resources
                    &&& t.spec_backend() == backend
                    &&& t.wf()
                    &&& t.tables_wf(final(memory)@)
                    &&& is_initialized(old(memory)@, final(memory)@, backend, resources)
                },
                Err(e) => {
                    &&& !resources.is_valid()
                    &&& e == Error::InvalidPage
                    &&& final(memory)@ == old(memory)@
                },
            },
    {
        resources.validate()?;
        let link: u64 = match backend {
            BackendKind::IntelVmx => EPT_READ_WRITE_EXECUTE,
            BackendKind::AmdSvm => NPT_PRESENT_WRITE_USER,
        };
        let leaf: u64 = match backend {
            BackendKind::IntelVmx => EPT_LEAF_WRITE_BACK,
            BackendKind::AmdSvm => NPT_PRESENT_WRITE_USER,
        };
        build_table(
            memory,
            resources.root,
            512,
            resources.level3_pages,
            resources.level3,
            PAGE_SIZE,
            link,
        );
        build_table(
            memory,
            resources.level3,
            512 * (resources.level3_pages as u64),
            1,
            resources.level2,
            0,
            link,
        );
        build_table(
            memory,
            resources.level2,
            512 * (resources.level2_pages as u64),
            resources.level1_pages,
            resources.level1,
            PAGE_SIZE,
            link,
        );
        build_table(
            memory,
            resources.level1,
            512 * (resources.level1_pages as u64),
            resources.guest_pages,
            resources.guest_base,
            PAGE_SIZE,
            leaf,
        );
        build_table(
            memory,
            resources.device_level1,
            512 * (resources.device_level1_pages as u64),
            0,
            0,
            0,
            0,
        );
        build_table(memory, resources.device_state, 512, 0, 0, 0, 0);
        build_table(memory, resources.guest_base, 512 * (resources.guest_pages as u64), 0, 0, 0, 0);
        proof {
            let m = old(memory)@;
            let r = resources;
            assert forall|i: int| 0 <= i < 512 implies m.dom().contains(
                #[trigger] slot(r.root as int, i),
            ) by {
                lemma_slot_mapped(m, r.root as int, 0x1000, i);
            }
            assert forall|i: int| 0 <= i < 512 * r.level3_pages implies m.dom().contains(
                #[trigger] slot(r.level3 as int, i),
            ) by {
                lemma_slot_mapped(m, r.level3 as int, 0x1000 * r.level3_pages, i);
            }
            assert forall|i: int| 0 <= i < 512 * r.level2_pages implies m.dom().contains(
                #[trigger] slot(r.level2 as int, i),
            ) by {
                lemma_slot_mapped(m, r.level2 as int, 0x1000 * r.level2_pages, i);
            }
            assert forall|i: int| 0 <= i < 512 * r.level1_pages implies m.dom().contains(
                #[trigger] slot(r.level1 as int, i),
            ) by {
                lemma_slot_mapped(m, r.level1 as int, 0x1000 * r.level1_pages, i);
            }
            assert forall|i: int| 0 <= i < 512 * r.device_level1_pages implies m.dom().contains(
                #[trigger] slot(r.device_level1 as int, i),
            ) by {
                lemma_slot_mapped(m, r.device_level1 as int, 0x1000 * r.device_level1_pages, i);
            }
            assert forall|i: int| 0 <= i < 512 implies m.dom().contains(
                #[trigger] slot(r.device_state as int, i),
            ) by {
                lemma_slot_mapped(m, r.device_state as int, 0x1000, i);
            }
            assert(is_initialized(m, memory@, backend, r));
            lemma_initialized_tables(m, memory@, backend, r);
        }
        Ok(NestedPageTable { backend, resources })
    }
}

/// The guest's own first three pages after they were set up: one top-level
/// entry, one pointer entry, and two-megabyte pages over all of the RAM.
pub open spec fn has_guest_tables(
    before: Map<int, u64>,
    after: Map<int, u64>,
    r: NestedPageResources,
) -> bool {
    let base = r.guest_base as int;
    &&& after.dom() == before.dom()
    &&& forall|i: int|
        0 <= i < 512 ==> #[trigger] after[slot(base, i)] == (if i == 0 {
            entry(0x1000, GUEST_PAGE_TABLE_FLAGS)
        } else {
            0
        })
    &&& forall|i: int|
        0 <= i < 512 ==> #[trigger] after[slot(base + 0x1000, i)] == (if i == 0 {
            entry(0x2000, GUEST_PAGE_TABLE_FLAGS)
        } else {
            0
        })
    &&& forall|i: int|
        0 <= i < 512 ==> #[trigger] after[slot(base + 0x2000, i)] == (if i < r.level1_pages {
            entry(LARGE_PAGE_SIZE * i, GUEST_LARGE_PAGE_FLAGS)
        } else {
            0
        })
    &&& forall|a: int|
        before.dom().contains(a) && !(base <= a < base + 0x3000) ==> #[trigger] after[a]
            == before[a]
}

/// Whether a Domain page may be mapped at this guest address.
pub open spec fn is_ram_page(r: NestedPageResources, guest_page: u64) -> bool {
    guest_page % 0x1000 == 0 && guest_page + 0x1000 <= 0x1000 * r.guest_pages
}

/// The leaf entry of a page of the Domain's RAM.
pub open spec fn ram_slot(r: NestedPageResources, guest_page: u64) -> int {
    slot(r.level1 as int, guest_page as int / 0x1000)
}

/// Whether a sparse range lies above the RAM and is made of whole pages.
pub open spec fn is_device_range(r: NestedPageResources, guest_start: u64, len: u64) -> bool {
    &&& guest_start >= 0x1000 * r.guest_pages
    &&& guest_start % 0x1000 == 0
    &&& len != 0
    &&& len % 0x1000 == 0
}

impl NestedPageTable {
    pub fn root(&self) -> (r: u64)
        ensures
            r == self@.root,
    {
        self.resources.root
    }

    pub fn guest_base(&self) -> (r: u64)
        ensures
            r == self@.guest_base,
    {
        self.resources.guest_base
    }

    pub fn guest_memory_size(&self) -> (r: u64)
        requires
            self.wf(),
        ensures
            r == 0x1000 * self@.guest_pages,
    {
        self.resources.guest_pages as u64 * PAGE_SIZE
    }

    /// Where `len` bytes of guest RAM lie in host memory.
    pub fn guest_host_address(&self, guest_address: u64, len: u64) -> (r: Option<u64>)
        requires
            self.wf(),
        ensures
            r == (if guest_address + len <= 0x1000 * self@.guest_pages {
                Some((self@.guest_base + guest_address) as u64)
            } else {
                None
            }),
    {
        let end: u64 = match guest_address.checked_add(len) {
            Some(end) => end,
            None => return None,
        };
        if end > self.guest_memory_size() {
            return None;
        }
        self.resources.guest_base.checked_add(guest_address)
    }

    /// Where a whole page of guest RAM lies in host memory.
    pub fn owned_page_host_address(&self, guest_page: u64) -> (r: Option<u64>)
        requires
            self.wf(),
        ensures
            r == (if is_ram_page(self@, guest_page) {
                Some((self@.guest_base + guest_page) as u64)
            } else {
                None
            }),
    {
        if guest_page % PAGE_SIZE != 0 {
            return None;
        }
        let end: u64 = match guest_page.checked_add(PAGE_SIZE) {
            Some(end) => end,
            None => return None,
        };
        if end > self.guest_memory_size() {
            return None;
        }
        self.resources.guest_base.checked_add(guest_page)
    }

    /// The address of the leaf entry of a page of RAM.
    fn page_entry(&self, guest_page: u64) -> (r: Result<u64, Error>)
        requires
            self.wf(),
        ensures
            match r {
                Ok(address) => is_ram_page(self@, guest_page) && address == ram_slot(
                    self@,
                    guest_page,
                ),
                Err(e) => !is_ram_page(self@, guest_page) && e == Error::InvalidPage,
            },
    {
        if self.owned_page_host_address(guest_page).is_none() {
            return Err(Error::InvalidPage);
        }
        Ok(self.resources.level1 + 8 * (guest_page / PAGE_SIZE))
    }

    /// Replaces one stopped Domain mapping with a page owned by another Domain.
    ///
    /// No vCPU may use this nested page table until the backend translation
    /// cache has been invalidated.
    pub fn map_shared_page(
        &self,
        guest_page: u64,
        host_page: u64,
        writable: bool,
        memory: &mut PhysicalMemory,
    ) -> (r: Result<(), Error>)
        requires
            self.wf(),
            old(memory).wf(),
            self@.is_mapped(old(memory)@),
        ensures
            final(memory).wf(),
            r == (if is_ram_page(self@, guest_page) && is_page(host_page) {
                Ok(())
            } else {
                Err(Error::InvalidPage)
            }),
            final(memory)@ == (if r is Ok {
                old(memory)@.insert(
                    ram_slot(self@, guest_page),
                    host_page | shared_flags(self.spec_backend(), writable),
                )
            } else {
                old(memory)@
            }),
    {
        let address: u64 = self.page_entry(guest_page)?;
        if !page_valid(host_page) {
            return Err(Error::InvalidPage);
        }
        let read: u64 = match self.backend {
            BackendKind::IntelVmx => EPT_SHARED_READ,
            BackendKind::AmdSvm => NPT_PRESENT_USER_NO_EXECUTE,
        };
        let flags: u64 = if writable {
            read | NESTED_WRITABLE
        } else {
            read
        };
        proof {
            lemma_ram_slot_mapped(self@, memory@, guest_page);
        }
        memory.write(address, host_page | flags);
        Ok(())
    }

    /// Restores a shared guest page to the Domain's own backing page.
    ///
    /// The vCPU must be stopped until the backend translation cache is
    /// invalidated.
    pub fn restore_owned_page(
        &self,
        guest_page: u64,
        memory: &mut PhysicalMemory,
    ) -> (r: Result<(), Error>)
        requires
            self.wf(),
            old(memory).wf(),
            self@.is_mapped(old(memory)@),
        ensures
            final(memory).wf(),
            r == (if is_ram_page(self@, guest_page) {
                Ok(())
            } else {
                Err(Error::InvalidPage)
            }),
            final(memory)@ == (if r is Ok {
                old(memory)@.insert(
                    ram_slot(self@, guest_page),
                    entry(self@.guest_base + guest_page, ram_flags(self.spec_backend())),
                )
            } else {
                old(memory)@
            }),
    {
        let address: u64 = self.page_entry(guest_page)?;
        let host_page: u64 = self.resources.guest_base + guest_page;
        let flags: u64 = match self.backend {
            BackendKind::IntelVmx => EPT_LEAF_WRITE_BACK,
            BackendKind::AmdSvm => NPT_PRESENT_WRITE_USER,
        };
        proof {
            lemma_ram_slot_mapped(self@, memory@, guest_page);
        }
        memory.write(address, host_page | flags);
        Ok(())
    }

    /// Maps one physical device page into a stopped Domain with non-executable,
    /// uncacheable semantics.
    ///
    /// The vCPU must remain stopped until the nested translation cache has been
    /// invalidated.
    pub fn map_device_page(
        &self,
        guest_page: u64,
        host_page: u64,
        memory: &mut PhysicalMemory,
    ) -> (r: Result<(), Error>)
        requires
            self.wf(),
            old(memory).wf(),
            self@.is_mapped(old(memory)@),
        ensures
            final(memory).wf(),
            r == (if is_ram_page(self@, guest_page) && is_page(host_page) && host_page
                < PHYSICAL_LIMIT {
                Ok(())
            } else {
                Err(Error::InvalidPage)
            }),
            final(memory)@ == (if r is Ok {
                old(memory)@.insert(
                    ram_slot(self@, guest_page),
                    host_page | device_flags(self.spec_backend()),
                )
            } else {
                old(memory)@
            }),
    {
        let address: u64 = self.page_entry(guest_page)?;
        if !page_valid(host_page) || host_page >= PHYSICAL_LIMIT {
            return Err(Error::InvalidPage);
        }
        proof {
            lemma_ram_slot_mapped(self@, memory@, guest_page);
        }
        memory.write(address, host_page | self.device_page_flags());
        Ok(())
    }

    fn device_page_flags(&self) -> (r: u64)
        ensures
            r == device_flags(self.spec_backend()),
    {
        match self.backend {
            BackendKind::IntelVmx => EPT_DEVICE_READ_WRITE,
            BackendKind::AmdSvm => NPT_DEVICE_READ_WRITE,
        }
    }

    fn table_link_flags(&self) -> (r: u64)
        ensures
            r == link_flags(self.spec_backend()),
    {
        match self.backend {
            BackendKind::IntelVmx => EPT_READ_WRITE_EXECUTE,
            BackendKind::AmdSvm => NPT_PRESENT_WRITE_USER,
        }
    }

    /// Creates a guest-owned four-level table that identity maps all Domain RAM.
    /// The PML4 starts at GPA 0 and is suitable for CR3.
    ///
    /// No vCPU may be using the first three guest pages while this runs.
    pub fn initialize_guest_page_tables(
        &self,
        memory: &mut PhysicalMemory,
    ) -> (r: Result<u64, Error>)
        requires
            self.wf(),
            old(memory).wf(),
            self@.is_mapped(old(memory)@),
        ensures
            final(memory).wf(),
            if self@.guest_pages >= 3 {
                r == Ok::<u64, Error>(0) && has_guest_tables(old(memory)@, final(memory)@, self@)
            } else {
                r == Err::<u64, Error>(Error::InvalidPage) && final(memory)@ == old(memory)@
            },
    {
        if self.guest_memory_size() < 3 * PAGE_SIZE {
            return Err(Error::InvalidPage);
        }
        let base: u64 = self.resources.guest_base;
        build_table(memory, base, 512, 1, PAGE_SIZE, 0, GUEST_PAGE_TABLE_FLAGS);
        build_table(memory, base + PAGE_SIZE, 512, 1, 2 * PAGE_SIZE, 0, GUEST_PAGE_TABLE_FLAGS);
        build_table(
            memory,
            base + 2 * PAGE_SIZE,
            512,
            div_ceil_512(self.resources.guest_pages),
            0,
            LARGE_PAGE_SIZE,
            GUEST_LARGE_PAGE_FLAGS,
        );
        proof {
            let m = old(memory)@;
            let bytes = 0x1000 * self@.guest_pages;
            assert forall|i: int| 0 <= i < 512 implies m.dom().contains(
                #[trigger] slot(base as int, i),
            ) by {
                lemma_slot_mapped(m, base as int, bytes, i);
            }
            assert forall|i: int| 0 <= i < 512 implies m.dom().contains(
                #[trigger] slot(base + 0x1000, i),
            ) by {
                lemma_slot_mapped(m, base as int, bytes, i + 512);
            }
        }
        Ok(0)
    }

    /// Extends a Native Domain's initial identity map over a sparse device range.
    /// Nested translation must separately map every page in the range.
    ///
    /// `initialize_guest_page_tables` must have completed and the vCPU must be
    /// stopped.
    #[verifier::spinoff_prover]
    #[verifier::rlimit(40)]
    pub fn map_guest_identity_device_range(
        &self,
        guest_start: u64,
        len: u64,
        memory: &mut PhysicalMemory,
    ) -> (r: Result<(), Error>)
        requires
            self.wf(),
            self@.guest_pages >= 3,
            old(memory).wf(),
            self@.is_mapped(old(memory)@),
        ensures
            final(memory).wf(),
            r == (if is_device_range(self@, guest_start, len) && guest_start + len <= GIGABYTE {
                Ok(())
            } else {
                Err(Error::InvalidPage)
            }),
            r is Err ==> final(memory)@ == old(memory)@,
            r is Ok ==> {
                let directory = self@.guest_base + 0x2000;
                let first = guest_start as int / LARGE_PAGE_SIZE as int;
                let last = (guest_start + len - 1) / LARGE_PAGE_SIZE as int;
                &&& final(memory)@.dom() == old(memory)@.dom()
                &&& forall|i: int|
                    first <= i <= last ==> #[trigger] final(memory)@[slot(directory, i)] == entry(
                        LARGE_PAGE_SIZE * i,
                        GUEST_LARGE_PAGE_FLAGS,
                    )
                &&& forall|a: int|
                    old(memory)@.dom().contains(a) && !(slot(directory, first) <= a < slot(
                        directory,
                        last + 1,
                    )) ==> #[trigger] final(memory)@[a] == old(memory)@[a]
            },
    {
        let end: u64 = match guest_start.checked_add(len) {
            Some(end) => end,
            None => return Err(Error::InvalidPage),
        };
        if guest_start < self.guest_memory_size() || guest_start % PAGE_SIZE != 0 || len == 0 || len
            % PAGE_SIZE != 0 || end > GIGABYTE {
            return Err(Error::InvalidPage);
        }
        let directory: u64 = self.resources.guest_base + 2 * PAGE_SIZE;
        let first: u64 = guest_start / LARGE_PAGE_SIZE;
        let last: u64 = (end - 1) / LARGE_PAGE_SIZE;
        let count: usize = (last - first + 1) as usize;
        let table: u64 = directory + 8 * first;
        assert(covers(memory@, table as int, 8 * count));
        write_run(
            memory,
            table,
            count,
            first * LARGE_PAGE_SIZE,
            LARGE_PAGE_SIZE,
            GUEST_LARGE_PAGE_FLAGS,
        );
        assert forall|i: int| first <= i <= last implies #[trigger] memory@[slot(
            directory as int,
            i,
        )] == entry(LARGE_PAGE_SIZE * i, GUEST_LARGE_PAGE_FLAGS) by {
            assert(slot(directory as int, i) == slot(table as int, i - first));
        }
        Ok(())
    }

    /// Clears all Domain RAM before a fresh image is loaded.
    ///
    /// The Domain vCPU must be stopped and no backend may access guest RAM.
    pub fn clear_guest_memory(&self, memory: &mut PhysicalMemory)
        requires
            self.wf(),
            old(memory).wf(),
            self@.is_mapped(old(memory)@),
        ensures
            final(memory).wf(),
            final(memory)@ == cleared(
                old(memory)@,
                self@.guest_base as int,
                0x1000 * self@.guest_pages,
            ),
    {
        memory.clear(self.resources.guest_base, 512 * (self.resources.guest_pages as u64));
    }

    pub open spec fn spec_hardware_root(&self) -> u64 {
        match self.spec_backend() {
            BackendKind::IntelVmx => self@.root | EPT_WRITE_BACK | EPT_WALK_LENGTH_4,
            BackendKind::AmdSvm => self@.root,
        }
    }

    /// The value that tells the CPU where and in what format the table is.
    pub fn hardware_root(&self) -> (r: u64)
        ensures
            r == self.spec_hardware_root(),
    {
        match self.backend {
            BackendKind::IntelVmx => self.resources.root | EPT_WRITE_BACK | EPT_WALK_LENGTH_4,
            BackendKind::AmdSvm => self.resources.root,
        }
    }
}

pub proof fn lemma_ram_slot_mapped(r: NestedPageResources, m: Map<int, u64>, guest_page: u64)
    requires
        r.is_valid(),
        r.is_mapped(m),
        is_ram_page(r, guest_page),
    ensures
        m.dom().contains(ram_slot(r, guest_page)),
{
    lemma_slot_mapped(m, r.level1 as int, 0x1000 * r.level1_pages, guest_page as int / 0x1000);
}

/// The entry, among all level-2 tables, of the two megabytes around `guest`.
pub open spec fn level2_slot(r: NestedPageResources, guest: int) -> int {
    slot(r.level2 as int, guest / LARGE_PAGE_SIZE as int)
}

/// The entry, among all level-3 tables, of the gigabyte around `guest`.
pub open spec fn level3_slot(r: NestedPageResources, guest: int) -> int {
    slot(r.level3 as int, guest / GIGABYTE as int)
}

/// Whether the tables reach up to the guest address.
#[verifier::opaque]
pub open spec fn reaches(r: NestedPageResources, guest: int) -> bool {
    guest / (GIGABYTE as int) < r.level2_pages
}

/// Memory with the level-2 table of the gigabyte around `guest` linked.
pub open spec fn with_level2_linked(
    b: BackendKind,
    r: NestedPageResources,
    m: Map<int, u64>,
    guest: int,
) -> Map<int, u64> {
    m.insert(
        level3_slot(r, guest),
        entry(r.level2 + 0x1000 * (guest / GIGABYTE as int), link_flags(b)),
    )
}

/// The entry of the page around `guest` in the leaf table that `e` points to.
pub open spec fn leaf_slot(e: u64, guest: int) -> int {
    slot((e & ENTRY_ADDRESS) as int, guest / 0x1000 % 512)
}

/// What maps the guest address: a large leaf, a small leaf, or nothing.
#[verifier::opaque]
pub open spec fn leaf(r: NestedPageResources, m: Map<int, u64>, guest: int) -> Option<(bool, u64)> {
    let e = m[level2_slot(r, guest)];
    if e & NESTED_LARGE_PAGE != 0 {
        Some((true, e))
    } else if e & ENTRY_ADDRESS == 0 || m[leaf_slot(e, guest)] == 0 {
        None
    } else {
        Some((false, m[leaf_slot(e, guest)]))
    }
}

/// Whether a leaf spans two megabytes.
pub open spec fn is_large(l: Option<(bool, u64)>) -> bool {
    match l {
        Some((large, _)) => large,
        None => false,
    }
}

/// The number of device leaf tables in use.
pub open spec fn device_tables(r: NestedPageResources, m: Map<int, u64>) -> u64 {
    m[r.device_state as int]
}

/// Whether level-2 entry `i` points to a leaf table: its own one for RAM, or one
/// of the device tables in use.
pub open spec fn is_leaf_link(
    b: BackendKind,
    r: NestedPageResources,
    n: u64,
    i: int,
    e: u64,
) -> bool {
    ||| i < r.level1_pages && e == entry(r.level1 + 0x1000 * i, link_flags(b))
    ||| exists|k: int|
        0 <= k < n && e == #[trigger] entry(r.device_level1 + 0x1000 * k, link_flags(b))
}

/// Whether a level-2 entry maps two megabytes by itself.
pub open spec fn is_large_leaf(e: u64) -> bool {
    e & NESTED_LARGE_PAGE != 0 && e & ENTRY_ADDRESS != 0
}

/// The regions are disjoint.
#[verifier::opaque]
pub open spec fn is_separate(r: NestedPageResources) -> bool {
    r.is_disjoint()
}

/// The shape that the tables keep while device ranges come and go.
#[verifier::opaque]
pub open spec fn tables_wf(b: BackendKind, r: NestedPageResources, m: Map<int, u64>) -> bool {
    &&& r.is_valid()
    &&& r.is_bounded()
    &&& is_separate(r)
    &&& r.is_mapped(m)
    &&& device_tables(r, m) <= r.device_level1_pages
    &&& forall|i: int|
        0 <= i < r.level2_pages ==> #[trigger] m[slot(r.level3 as int, i)] == 0 || m[slot(
            r.level3 as int,
            i,
        )] == entry(r.level2 + 0x1000 * i, link_flags(b))
    &&& forall|i: int|
        0 <= i < 512 * r.level2_pages ==> {
            let e = #[trigger] m[slot(r.level2 as int, i)];
            e == 0 || is_large_leaf(e) || is_leaf_link(b, r, device_tables(r, m), i, e)
        }
    &&& forall|i: int, j: int|
        0 <= i < j < 512 * r.level2_pages && m[slot(r.level2 as int, i)] != 0 && m[slot(
            r.level2 as int,
            i,
        )] & NESTED_LARGE_PAGE == 0 ==> #[trigger] m[slot(r.level2 as int, i)] != #[trigger] m[slot(
            r.level2 as int,
            j,
        )]
    &&& forall|i: int|
        512 * device_tables(r, m) <= i < 512 * r.device_level1_pages ==> #[trigger] m[slot(
            r.device_level1 as int,
            i,
        )] == 0
}

/// Maps two megabytes with one leaf, where nothing was mapped or linked.
pub open spec fn large_step(
    b: BackendKind,
    r: NestedPageResources,
    m: Map<int, u64>,
    guest: int,
    host: int,
) -> (bool, Map<int, u64>) {
    let linked = with_level2_linked(b, r, m, guest);
    if !reaches(r, guest) {
        (false, m)
    } else if linked[level2_slot(r, guest)] != 0 {
        (false, linked)
    } else {
        (true, linked.insert(level2_slot(r, guest), entry(host, large_device_flags(b))))
    }
}

/// Memory with a leaf table for the two megabytes around `guest`, taken from the
/// device tables if there was none.
pub open spec fn with_leaf_table(
    b: BackendKind,
    r: NestedPageResources,
    m: Map<int, u64>,
    guest: int,
) -> (bool, Map<int, u64>) {
    let linked = with_level2_linked(b, r, m, guest);
    let e = linked[level2_slot(r, guest)];
    let n = device_tables(r, linked);
    if e & ENTRY_ADDRESS == 0 {
        if n >= r.device_level1_pages {
            (false, linked)
        } else {
            (
                true,
                linked.insert(r.device_state as int, (n + 1) as u64).insert(
                    level2_slot(r, guest),
                    entry(r.device_level1 + 0x1000 * n, link_flags(b)),
                ),
            )
        }
    } else {
        (e & NESTED_LARGE_PAGE == 0, linked)
    }
}

/// Maps one page, where nothing was mapped.
pub open spec fn small_step(
    b: BackendKind,
    r: NestedPageResources,
    m: Map<int, u64>,
    guest: int,
    host: int,
) -> (bool, Map<int, u64>) {
    let (ready, tables) = with_leaf_table(b, r, m, guest);
    let at = leaf_slot(tables[level2_slot(r, guest)], guest);
    if !reaches(r, guest) {
        (false, m)
    } else if !ready || tables[at] != 0 {
        (false, tables)
    } else {
        (true, tables.insert(at, entry(host, device_flags(b))))
    }
}

/// Whether the next `len` bytes start with a two-megabyte leaf.
pub open spec fn starts_large(guest: int, host: int, len: int) -> bool {
    guest % LARGE_PAGE_SIZE as int == 0 && host % LARGE_PAGE_SIZE as int == 0 && len
        >= LARGE_PAGE_SIZE
}

/// Maps a range leaf by leaf up to the first that fails. Also gives the number
/// of bytes that were left then.
#[verifier::opaque]
pub open spec fn map_leaves(
    b: BackendKind,
    r: NestedPageResources,
    m: Map<int, u64>,
    guest: int,
    host: int,
    len: int,
) -> (bool, Map<int, u64>, int)
    decreases
            (if len > 0 {
                len
            } else {
                0
            }),
{
    if len <= 0 {
        (true, m, 0)
    } else if starts_large(guest, host, len) {
        let (ok, next) = large_step(b, r, m, guest, host);
        if ok {
            map_leaves(
                b,
                r,
                next,
                guest + LARGE_PAGE_SIZE,
                host + LARGE_PAGE_SIZE,
                len - LARGE_PAGE_SIZE,
            )
        } else {
            (false, next, len)
        }
    } else {
        let (ok, next) = small_step(b, r, m, guest, host);
        if ok {
            map_leaves(b, r, next, guest + 0x1000, host + 0x1000, len - 0x1000)
        } else {
            (false, next, len)
        }
    }
}

/// Removes the leaf at `guest`; gives its size, or zero where there is none.
pub open spec fn unmap_step(
    b: BackendKind,
    r: NestedPageResources,
    m: Map<int, u64>,
    guest: int,
) -> (int, Map<int, u64>) {
    let linked = with_level2_linked(b, r, m, guest);
    let e = linked[level2_slot(r, guest)];
    if !reaches(r, guest) {
        (0, m)
    } else if e & NESTED_LARGE_PAGE != 0 {
        (LARGE_PAGE_SIZE as int, linked.insert(level2_slot(r, guest), 0))
    } else if e & ENTRY_ADDRESS == 0 || linked[leaf_slot(e, guest)] == 0 {
        (0, linked)
    } else {
        (0x1000, linked.insert(leaf_slot(e, guest), 0))
    }
}

/// Removes a range leaf by leaf, up to the first hole.
#[verifier::opaque]
pub open spec fn unmap_leaves(
    b: BackendKind,
    r: NestedPageResources,
    m: Map<int, u64>,
    guest: int,
    len: int,
) -> (bool, Map<int, u64>)
    decreases
            (if len > 0 {
                len
            } else {
                0
            }),
{
    if len <= 0 {
        (true, m)
    } else {
        let (size, next) = unmap_step(b, r, m, guest);
        if size <= 0 {
            (false, next)
        } else {
            unmap_leaves(b, r, next, guest + size, len - size)
        }
    }
}

/// Whether a device range may be mapped at all.
pub open spec fn is_mappable_range(
    r: NestedPageResources,
    guest_start: u64,
    host_start: u64,
    len: u64,
) -> bool {
    &&& is_device_range(r, guest_start, len)
    &&& is_page(host_start)
    &&& guest_start + len <= GIGABYTE * r.level2_pages
}

/// Maps a range, or maps nothing: what was mapped before a failure is removed.
pub open spec fn map_range(
    b: BackendKind,
    r: NestedPageResources,
    m: Map<int, u64>,
    guest_start: u64,
    host_start: u64,
    len: u64,
) -> (bool, Map<int, u64>) {
    if !is_mappable_range(r, guest_start, host_start, len) {
        (false, m)
    } else {
        let (ok, next, left) = map_leaves(
            b,
            r,
            m,
            guest_start as int,
            host_start as int,
            len as int,
        );
        if ok {
            (true, next)
        } else {
            (false, unmap_leaves(b, r, next, guest_start as int, len - left).1)
        }
    }
}

proof fn lemma_flags(b: BackendKind)
    ensures
        link_flags(b) & ENTRY_ADDRESS == 0,
        link_flags(b) & NESTED_LARGE_PAGE == 0,
        link_flags(b) & 1 == 1,
        ram_flags(b) & ENTRY_ADDRESS == 0,
        ram_flags(b) & 1 == 1,
        device_flags(b) & ENTRY_ADDRESS == 0,
        device_flags(b) & 1 == 1,
        large_device_flags(b) & ENTRY_ADDRESS == 0,
        large_device_flags(b) & NESTED_LARGE_PAGE != 0,
        large_device_flags(b) == device_flags(b) + 0x80,
        shared_flags(b, true) == shared_flags(b, false) + 2,
        0u64 & NESTED_LARGE_PAGE == 0,
        0u64 & ENTRY_ADDRESS == 0,
        0u64 & 1 == 0,
{
    assert(0b111u64 & 0x000f_ffff_ffff_f000 == 0 && 0b111u64 & 0x80 == 0 && 0b111u64 & 1 == 1
        && 0x37u64 & 0x000f_ffff_ffff_f000 == 0 && 0x37u64 & 1 == 1 && 0b011u64
        & 0x000f_ffff_ffff_f000 == 0 && 0b011u64 & 1 == 1 && 0x8000_0000_0000_001fu64
        & 0x000f_ffff_ffff_f000 == 0 && 0x8000_0000_0000_001fu64 & 1 == 1 && (0b011u64 | 0x80)
        & 0x000f_ffff_ffff_f000 == 0 && (0b011u64 | 0x80) & 0x80 == 0x80 && (
    0x8000_0000_0000_001fu64 | 0x80) & 0x000f_ffff_ffff_f000 == 0 && (0x8000_0000_0000_001fu64
        | 0x80) & 0x80 == 0x80 && 0u64 & 0x80 == 0 && 0u64 & 0x000f_ffff_ffff_f000 == 0 && 0u64 & 1
        == 0 && 0b011u64 | 0x80 == 0x83 && 0x8000_0000_0000_001fu64 | 0x80 == 0x8000_0000_0000_009f
        && 0x31u64 | 2 == 0x33 && 0x8000_0000_0000_0005u64 | 2 == 0x8000_0000_0000_0007)
        by (bit_vector);
}

/// A link to the page at `address` reads back as that page.
proof fn lemma_link(b: BackendKind, address: int)
    requires
        0 <= address < PHYSICAL_LIMIT,
        address % 0x1000 == 0,
    ensures
        entry(address, link_flags(b)) != 0,
        entry(address, link_flags(b)) & ENTRY_ADDRESS == address,
        entry(address, link_flags(b)) & NESTED_LARGE_PAGE == 0,
        entry(address, link_flags(b)) & 1 == 1,
{
    lemma_flags(b);
    lemma_entry(address as u64, link_flags(b));
}

/// An address below the reach of the tables has its level-2 entry in them.
proof fn lemma_level2_index(guest: int, pages: int)
    requires
        0 <= guest,
        guest / (GIGABYTE as int) < pages,
    ensures
        0 <= guest / (LARGE_PAGE_SIZE as int) < 512 * pages,
        guest / (LARGE_PAGE_SIZE as int) / 512 == guest / (GIGABYTE as int),
        0 <= guest / 0x1000 % 512 < 512,
        0 <= guest / (GIGABYTE as int),
{
}

/// What a level-2 entry other than a large leaf can be.
proof fn lemma_level2_entry(b: BackendKind, r: NestedPageResources, m: Map<int, u64>, guest: int)
    requires
        tables_wf(b, r, m),
        0 <= guest,
        reaches(r, guest),
    ensures
        m.dom().contains(level3_slot(r, guest)),
        m.dom().contains(level2_slot(r, guest)),
        m.dom().contains(r.device_state as int),
        ({
            let e = m[level2_slot(r, guest)];
            let t = (e & ENTRY_ADDRESS) as int;
            &&& e & ENTRY_ADDRESS == 0 <==> e == 0
            &&& e & NESTED_LARGE_PAGE == 0 ==> {
                &&& e != 0 ==> {
                    &&& m.dom().contains(leaf_slot(e, guest))
                    &&& t % 0x1000 == 0
                    &&& {
                        ||| r.level1 <= t && t + 0x1000 <= r.level1 + 0x1000 * r.level1_pages
                        ||| r.device_level1 <= t && t + 0x1000 <= r.device_level1 + 0x1000
                            * device_tables(r, m)
                    }
                }
            }
        }),
{
    reveal(reaches);
    reveal(tables_wf);
    let i = guest / LARGE_PAGE_SIZE as int;
    lemma_level2_index(guest, r.level2_pages as int);
    lemma_slot_mapped(m, r.level3 as int, 0x1000 * r.level3_pages, guest / GIGABYTE as int);
    lemma_slot_mapped(m, r.level2 as int, 0x1000 * r.level2_pages, i);
    lemma_slot_mapped(m, r.device_state as int, 0x1000, 0);
    lemma_flags(b);
    let e = m[level2_slot(r, guest)];
    let n = device_tables(r, m);
    let index = guest / 0x1000 % 512;
    if e != 0 && !is_large_leaf(e) {
        assert(is_leaf_link(b, r, n, i, e));
        if i < r.level1_pages && e == entry(r.level1 + 0x1000 * i, link_flags(b)) {
            lemma_link(b, r.level1 + 0x1000 * i);
            lemma_slot_mapped(m, r.level1 as int, 0x1000 * r.level1_pages, 512 * i + index);
            assert(leaf_slot(e, guest) == slot(r.level1 as int, 512 * i + index));
        } else {
            let k = choose|k: int|
                0 <= k < n && e == #[trigger] entry(r.device_level1 + 0x1000 * k, link_flags(b));
            lemma_link(b, r.device_level1 + 0x1000 * k);
            lemma_slot_mapped(
                m,
                r.device_level1 as int,
                0x1000 * r.device_level1_pages,
                512 * k + index,
            );
            assert(leaf_slot(e, guest) == slot(r.device_level1 as int, 512 * k + index));
        }
    }
}

/// The regions of well-formed tables are valid and mapped.
proof fn lemma_tables(b: BackendKind, r: NestedPageResources, m: Map<int, u64>)
    requires
        tables_wf(b, r, m),
    ensures
        r.is_valid(),
        r.is_bounded(),
        is_separate(r),
        r.is_mapped(m),
        GIGABYTE * r.level2_pages <= 0x1_0000_0000_0000,
{
    reveal(tables_wf);
}

impl NestedPageTable {
    /// The tables in memory have the shape that this table's operations keep.
    pub open spec fn tables_wf(&self, m: Map<int, u64>) -> bool {
        tables_wf(self.spec_backend(), self@, m)
    }

    /// Links the level-2 table of the gigabyte around `guest` and gives the
    /// address of its entry for `guest`.
    fn sparse_level2_entry(
        &self,
        guest: u64,
        memory: &mut PhysicalMemory,
    ) -> (r: Result<u64, Error>)
        requires
            old(memory).wf(),
            self.tables_wf(old(memory)@),
        ensures
            final(memory).wf(),
            match r {
                Ok(address) => {
                    &&& reaches(self@, guest as int)
                    &&& address == level2_slot(self@, guest as int)
                    &&& final(memory)@ == with_level2_linked(
                        self.spec_backend(),
                        self@,
                        old(memory)@,
                        guest as int,
                    )
                },
                Err(e) => {
                    &&& !reaches(self@, guest as int)
                    &&& e == Error::InvalidPage
                    &&& final(memory)@ == old(memory)@
                },
            },
    {
        proof {
            lemma_tables(self.spec_backend(), self@, memory@);
            reveal(reaches);
        }
        let level2_index: u64 = guest / GIGABYTE;
        if level2_index >= self.resources.level2_pages as u64 {
            return Err(Error::InvalidPage);
        }
        proof {
            lemma_level2_entry(self.spec_backend(), self@, memory@, guest as int);
            lemma_flags(self.spec_backend());
            lemma_link(self.spec_backend(), self@.level2 + 0x1000 * level2_index);
            reveal(tables_wf);
        }
        let level3_entry: u64 = self.resources.level3 + 8 * level2_index;
        let expected: u64 = self.resources.level2 + level2_index * PAGE_SIZE;
        let current: u64 = memory.read(level3_entry) & ENTRY_ADDRESS;
        assert(memory@[slot(self@.level3 as int, level2_index as int)] == memory@[level3_entry as int]);
        if current == 0 {
            memory.write(level3_entry, expected | self.table_link_flags());
        } else if current != expected {
            return Err(Error::InvalidPage);
        }
        assert(memory@ =~= with_level2_linked(
            self.spec_backend(),
            self@,
            old(memory)@,
            guest as int,
        ));
        Ok(self.resources.level2 + 8 * (guest / LARGE_PAGE_SIZE))
    }
}

/// Nothing that the two memories map below the reach of the tables differs.
pub open spec fn same_leaves(r: NestedPageResources, m: Map<int, u64>, n: Map<int, u64>) -> bool {
    forall|g: int| 0 <= g && reaches(r, g) ==> #[trigger] leaf(r, n, g) == leaf(r, m, g)
}

/// Outside `from..from + len` nothing that the two memories map differs.
pub open spec fn same_leaves_outside(
    r: NestedPageResources,
    m: Map<int, u64>,
    n: Map<int, u64>,
    from: int,
    len: int,
) -> bool {
    forall|g: int|
        0 <= g && reaches(r, g) && !(from <= g < from + len) ==> #[trigger] leaf(r, n, g) == leaf(
            r,
            m,
            g,
        )
}

/// Nothing is mapped in `from..from + len`.
pub open spec fn no_leaves(r: NestedPageResources, m: Map<int, u64>, from: int, len: int) -> bool {
    forall|g: int| 0 <= g && from <= g < from + len ==> #[trigger] leaf(r, m, g) is None
}

/// Memory that differs only in the level-3 tables maps the same.
proof fn lemma_level3_write(b: BackendKind, r: NestedPageResources, m: Map<int, u64>, guest: int)
    requires
        tables_wf(b, r, m),
        0 <= guest,
        reaches(r, guest),
    ensures
        tables_wf(b, r, with_level2_linked(b, r, m, guest)),
        same_leaves(r, m, with_level2_linked(b, r, m, guest)),
        with_level2_linked(b, r, m, guest).dom() == m.dom(),
        with_level2_linked(b, r, m, guest)[level2_slot(r, guest)] == m[level2_slot(r, guest)],
        device_tables(r, with_level2_linked(b, r, m, guest)) == device_tables(r, m),
        forall|a: int|
            a != level3_slot(r, guest) ==> #[trigger] with_level2_linked(b, r, m, guest)[a] == m[a],
{
    reveal(reaches);
    reveal(tables_wf);
    reveal(leaf);
    reveal(is_separate);
    let n = with_level2_linked(b, r, m, guest);
    lemma_level2_index(guest, r.level2_pages as int);
    lemma_level2_entry(b, r, m, guest);
    assert(n.dom() =~= m.dom());
    assert forall|g: int| 0 <= g && reaches(r, g) implies #[trigger] leaf(r, n, g) == leaf(r, m, g) by {
        lemma_level2_index(g, r.level2_pages as int);
        lemma_level2_entry(b, r, m, g);
    }
    assert forall|i: int| 0 <= i < 512 * r.level2_pages implies #[trigger] n[slot(r.level2 as int, i)]
        == m[slot(r.level2 as int, i)] by {}
    assert forall|i: int| 0 <= i < 512 * r.device_level1_pages implies #[trigger] n[slot(
        r.device_level1 as int,
        i,
    )] == m[slot(r.device_level1 as int, i)] by {}
}

/// Clearing a level-2 entry, or making it a large leaf, keeps the shape and
/// changes what is mapped only in the two megabytes of the entry.
proof fn lemma_level2_write(
    b: BackendKind,
    r: NestedPageResources,
    m: Map<int, u64>,
    guest: int,
    e: u64,
)
    requires
        tables_wf(b, r, m),
        0 <= guest,
        guest % LARGE_PAGE_SIZE as int == 0,
        reaches(r, guest),
        e == 0 || is_large_leaf(e),
    ensures
        ({
            let n = m.insert(level2_slot(r, guest), e);
            &&& tables_wf(b, r, n)
            &&& same_leaves_outside(r, m, n, guest, LARGE_PAGE_SIZE as int)
            &&& forall|g: int|
                guest <= g < guest + LARGE_PAGE_SIZE ==> #[trigger] leaf(r, n, g) == (if e == 0 {
                    None
                } else {
                    Some((true, e))
                })
        }),
{
    reveal(reaches);
    reveal(tables_wf);
    reveal(leaf);
    reveal(is_separate);
    let n = m.insert(level2_slot(r, guest), e);
    lemma_flags(b);
    lemma_level2_index(guest, r.level2_pages as int);
    lemma_level2_entry(b, r, m, guest);
    assert(n.dom() =~= m.dom());
    let at = guest / LARGE_PAGE_SIZE as int;
    assert forall|i: int| 0 <= i < 512 * r.level2_pages && i != at implies #[trigger] n[slot(
        r.level2 as int,
        i,
    )] == m[slot(r.level2 as int, i)] by {}
    assert forall|i: int| 0 <= i < r.level2_pages implies #[trigger] n[slot(r.level3 as int, i)]
        == m[slot(r.level3 as int, i)] by {}
    assert forall|i: int| 0 <= i < 512 * r.device_level1_pages implies #[trigger] n[slot(
        r.device_level1 as int,
        i,
    )] == m[slot(r.device_level1 as int, i)] by {}
    assert(device_tables(r, n) == device_tables(r, m));
    assert forall|g: int|
        0 <= g && reaches(r, g) && !(guest <= g < guest + LARGE_PAGE_SIZE) implies #[trigger] leaf(
        r,
        n,
        g,
    ) == leaf(r, m, g) by {
        lemma_level2_index(g, r.level2_pages as int);
        lemma_level2_entry(b, r, m, g);
        assert(g / LARGE_PAGE_SIZE as int != at);
    }
    assert forall|g: int| guest <= g < guest + LARGE_PAGE_SIZE implies #[trigger] leaf(r, n, g) == (
    if e == 0 {
        None
    } else {
        Some((true, e))
    }) by {
        assert(g / LARGE_PAGE_SIZE as int == at);
    }
}

/// Taking a fresh device table for an empty level-2 entry maps nothing.
#[verifier::spinoff_prover]
proof fn lemma_new_table(b: BackendKind, r: NestedPageResources, m: Map<int, u64>, guest: int)
    requires
        tables_wf(b, r, m),
        0 <= guest,
        reaches(r, guest),
        m[level2_slot(r, guest)] == 0,
        device_tables(r, m) < r.device_level1_pages,
    ensures
        ({
            let k = device_tables(r, m);
            let e = entry(r.device_level1 + 0x1000 * k, link_flags(b));
            let n = m.insert(r.device_state as int, (k + 1) as u64).insert(level2_slot(r, guest), e);
            &&& tables_wf(b, r, n)
            &&& same_leaves(r, m, n)
            &&& n[level2_slot(r, guest)] == e
            &&& e != 0
            &&& e & NESTED_LARGE_PAGE == 0
            &&& n[leaf_slot(e, guest)] == 0
        }),
{
    reveal(reaches);
    reveal(tables_wf);
    reveal(leaf);
    reveal(is_separate);
    let k = device_tables(r, m);
    let e = entry(r.device_level1 + 0x1000 * k, link_flags(b));
    let n = m.insert(r.device_state as int, (k + 1) as u64).insert(level2_slot(r, guest), e);
    let at = guest / LARGE_PAGE_SIZE as int;
    lemma_flags(b);
    lemma_link(b, r.device_level1 + 0x1000 * k);
    lemma_level2_index(guest, r.level2_pages as int);
    lemma_level2_entry(b, r, m, guest);
    assert(n.dom() =~= m.dom());
    assert(device_tables(r, n) == k + 1);
    assert forall|i: int| 0 <= i < r.level2_pages implies #[trigger] n[slot(r.level3 as int, i)]
        == m[slot(r.level3 as int, i)] by {}
    assert forall|i: int| 0 <= i < 512 * r.device_level1_pages implies #[trigger] n[slot(
        r.device_level1 as int,
        i,
    )] == m[slot(r.device_level1 as int, i)] by {}
    assert forall|i: int| 0 <= i < 512 * r.level2_pages && i != at implies #[trigger] n[slot(
        r.level2 as int,
        i,
    )] == m[slot(r.level2 as int, i)] && m[slot(r.level2 as int, i)] != e by {
        lemma_not_fresh(b, r, m, i);
    }
    assert(n[slot(r.level2 as int, at)] == e);
    assert(is_leaf_link(b, r, (k + 1) as u64, at, e));
    assert forall|i: int| 0 <= i < 512 * r.level2_pages implies {
        let f = #[trigger] n[slot(r.level2 as int, i)];
        f == 0 || is_large_leaf(f) || is_leaf_link(b, r, device_tables(r, n), i, f)
    } by {
        if i != at {
            let f = m[slot(r.level2 as int, i)];
            assert(f == 0 || is_large_leaf(f) || is_leaf_link(b, r, k, i, f));
        }
    }
    assert forall|g: int| 0 <= g && reaches(r, g) implies #[trigger] leaf(r, n, g) == leaf(r, m, g) by {
        lemma_level2_index(g, r.level2_pages as int);
        lemma_level2_entry(b, r, m, g);
        let i = g / LARGE_PAGE_SIZE as int;
        if i == at {
            let w = 512 * k + g / 0x1000 % 512;
            assert(leaf_slot(e, g) == slot(r.device_level1 as int, w));
            assert(m[slot(r.device_level1 as int, w)] == 0);
        } else {
            assert(n[slot(r.level2 as int, i)] == m[slot(r.level2 as int, i)]);
        }
    }
    let w = 512 * k + guest / 0x1000 % 512;
    assert(leaf_slot(e, guest) == slot(r.device_level1 as int, w));
}

/// No level-2 entry points to a device table that is not in use.
proof fn lemma_not_fresh(b: BackendKind, r: NestedPageResources, m: Map<int, u64>, i: int)
    requires
        tables_wf(b, r, m),
        0 <= i < 512 * r.level2_pages,
        device_tables(r, m) < r.device_level1_pages,
    ensures
        m[slot(r.level2 as int, i)] != entry(
            r.device_level1 + 0x1000 * device_tables(r, m),
            link_flags(b),
        ),
{
    reveal(tables_wf);
    reveal(is_separate);
    let n = device_tables(r, m);
    let f = m[slot(r.level2 as int, i)];
    lemma_link(b, r.device_level1 + 0x1000 * n);
    if f != 0 && f & NESTED_LARGE_PAGE == 0 {
        assert(is_leaf_link(b, r, n, i, f));
        if i < r.level1_pages && f == entry(r.level1 + 0x1000 * i, link_flags(b)) {
            lemma_link(b, r.level1 + 0x1000 * i);
        } else {
            let k = choose|k: int|
                0 <= k < n && f == #[trigger] entry(r.device_level1 + 0x1000 * k, link_flags(b));
            lemma_link(b, r.device_level1 + 0x1000 * k);
        }
    }
}

/// Two level-2 entries never point to the same leaf table.
proof fn lemma_tables_differ(
    b: BackendKind,
    r: NestedPageResources,
    m: Map<int, u64>,
    guest: int,
    g: int,
)
    requires
        tables_wf(b, r, m),
        0 <= guest,
        0 <= g,
        reaches(r, guest),
        reaches(r, g),
        guest / (LARGE_PAGE_SIZE as int) != g / (LARGE_PAGE_SIZE as int),
        m[level2_slot(r, guest)] != 0,
        m[level2_slot(r, g)] != 0,
        m[level2_slot(r, guest)] & NESTED_LARGE_PAGE == 0,
        m[level2_slot(r, g)] & NESTED_LARGE_PAGE == 0,
    ensures
        leaf_slot(m[level2_slot(r, guest)], guest) != leaf_slot(m[level2_slot(r, g)], g),
{
    reveal(reaches);
    reveal(tables_wf);
    let i = guest / LARGE_PAGE_SIZE as int;
    let j = g / LARGE_PAGE_SIZE as int;
    let e = m[slot(r.level2 as int, i)];
    let f = m[slot(r.level2 as int, j)];
    lemma_level2_index(guest, r.level2_pages as int);
    lemma_level2_index(g, r.level2_pages as int);
    lemma_level2_entry(b, r, m, guest);
    lemma_level2_entry(b, r, m, g);
    assert(e != f);
    assert(e & ENTRY_ADDRESS != f & ENTRY_ADDRESS) by {
        lemma_link_is_injective(b, r, m, i);
        lemma_link_is_injective(b, r, m, j);
    }
}

/// A link is its target page with the link flags.
proof fn lemma_link_is_injective(b: BackendKind, r: NestedPageResources, m: Map<int, u64>, i: int)
    requires
        tables_wf(b, r, m),
        0 <= i < 512 * r.level2_pages,
        m[slot(r.level2 as int, i)] != 0,
        m[slot(r.level2 as int, i)] & NESTED_LARGE_PAGE == 0,
    ensures
        m[slot(r.level2 as int, i)] == entry(
            (m[slot(r.level2 as int, i)] & ENTRY_ADDRESS) as int,
            link_flags(b),
        ),
{
    reveal(tables_wf);
    let n = device_tables(r, m);
    let f = m[slot(r.level2 as int, i)];
    assert(is_leaf_link(b, r, n, i, f));
    if i < r.level1_pages && f == entry(r.level1 + 0x1000 * i, link_flags(b)) {
        lemma_link(b, r.level1 + 0x1000 * i);
    } else {
        let k = choose|k: int|
            0 <= k < n && f == #[trigger] entry(r.device_level1 + 0x1000 * k, link_flags(b));
        lemma_link(b, r.device_level1 + 0x1000 * k);
    }
}

/// Writing a small leaf changes what is mapped in its page only.
#[verifier::spinoff_prover]
proof fn lemma_leaf_write(
    b: BackendKind,
    r: NestedPageResources,
    m: Map<int, u64>,
    guest: int,
    value: u64,
)
    requires
        tables_wf(b, r, m),
        0 <= guest,
        guest % 0x1000 == 0,
        reaches(r, guest),
        m[level2_slot(r, guest)] != 0,
        m[level2_slot(r, guest)] & NESTED_LARGE_PAGE == 0,
    ensures
        ({
            let n = m.insert(leaf_slot(m[level2_slot(r, guest)], guest), value);
            &&& tables_wf(b, r, n)
            &&& same_leaves_outside(r, m, n, guest, 0x1000)
            &&& forall|g: int|
                guest <= g < guest + 0x1000 ==> #[trigger] leaf(r, n, g) == (if value == 0 {
                    None
                } else {
                    Some((false, value))
                })
        }),
{
    reveal(reaches);
    reveal(tables_wf);
    reveal(leaf);
    reveal(is_separate);
    let e = m[level2_slot(r, guest)];
    let at = leaf_slot(e, guest);
    let n = m.insert(at, value);
    lemma_flags(b);
    lemma_level2_index(guest, r.level2_pages as int);
    lemma_level2_entry(b, r, m, guest);
    assert(n.dom() =~= m.dom());
    assert forall|i: int| 0 <= i < r.level2_pages implies #[trigger] n[slot(r.level3 as int, i)]
        == m[slot(r.level3 as int, i)] by {}
    assert forall|i: int| 0 <= i < 512 * r.level2_pages implies #[trigger] n[slot(r.level2 as int, i)]
        == m[slot(r.level2 as int, i)] by {}
    assert(device_tables(r, n) == device_tables(r, m));
    assert forall|i: int|
        512 * device_tables(r, m) <= i < 512 * r.device_level1_pages implies #[trigger] n[slot(
        r.device_level1 as int,
        i,
    )] == m[slot(r.device_level1 as int, i)] by {}
    assert forall|g: int|
        0 <= g && reaches(r, g) && !(guest <= g < guest + 0x1000) implies #[trigger] leaf(r, n, g)
        == leaf(r, m, g) by {
        lemma_level2_index(g, r.level2_pages as int);
        lemma_level2_entry(b, r, m, g);
        let f = m[level2_slot(r, g)];
        if f != 0 && f & NESTED_LARGE_PAGE == 0 {
            if g / (LARGE_PAGE_SIZE as int) == guest / (LARGE_PAGE_SIZE as int) {
                assert(f == e);
                assert(g / 0x1000 != guest / 0x1000);
                assert(g / 0x1000 % 512 != guest / 0x1000 % 512);
            } else {
                lemma_tables_differ(b, r, m, guest, g);
            }
        }
    }
    assert forall|g: int| guest <= g < guest + 0x1000 implies #[trigger] leaf(r, n, g) == (if value
        == 0 {
        None
    } else {
        Some((false, value))
    }) by {
        assert(g / 0x1000 == guest / 0x1000);
        assert(g / (LARGE_PAGE_SIZE as int) == guest / (LARGE_PAGE_SIZE as int));
    }
}

/// The two megabytes from an aligned address share their level-2 entry.
proof fn lemma_same_large(r: NestedPageResources, from: int, g: int)
    requires
        0 <= from,
        from % (LARGE_PAGE_SIZE as int) == 0,
        from <= g < from + LARGE_PAGE_SIZE,
    ensures
        level2_slot(r, g) == level2_slot(r, from),
        level3_slot(r, g) == level3_slot(r, from),
        reaches(r, g) == reaches(r, from),
        from / (GIGABYTE as int) == g / (GIGABYTE as int),
{
    reveal(reaches);
    assert(g / (LARGE_PAGE_SIZE as int) == from / (LARGE_PAGE_SIZE as int));
    assert(g / (GIGABYTE as int) == from / (GIGABYTE as int));
}

/// The bytes of a page share their leaf entry.
proof fn lemma_same_page(r: NestedPageResources, e: u64, from: int, g: int)
    requires
        0 <= from,
        from % 0x1000 == 0,
        from <= g < from + 0x1000,
    ensures
        level2_slot(r, g) == level2_slot(r, from),
        reaches(r, g) == reaches(r, from),
        leaf_slot(e, g) == leaf_slot(e, from),
{
    reveal(reaches);
    assert(g / 0x1000 == from / 0x1000);
    assert(g / (LARGE_PAGE_SIZE as int) == from / (LARGE_PAGE_SIZE as int));
    assert(g / (GIGABYTE as int) == from / (GIGABYTE as int));
}

/// A large leaf appears where nothing was mapped, or nothing changes.
proof fn lemma_large_step(
    b: BackendKind,
    r: NestedPageResources,
    m: Map<int, u64>,
    guest: int,
    host: int,
)
    requires
        tables_wf(b, r, m),
        0 <= guest,
        guest % LARGE_PAGE_SIZE as int == 0,
        0 < host < PHYSICAL_LIMIT,
        host % 0x1000 == 0,
    ensures
        ({
            let (ok, n) = large_step(b, r, m, guest, host);
            let e = entry(host, large_device_flags(b));
            &&& tables_wf(b, r, n)
            &&& n.dom() == m.dom()
            &&& !ok ==> same_leaves(r, m, n)
            &&& ok ==> {
                &&& reaches(r, guest)
                &&& no_leaves(r, m, guest, LARGE_PAGE_SIZE as int)
                &&& same_leaves_outside(r, m, n, guest, LARGE_PAGE_SIZE as int)
                &&& forall|g: int|
                    guest <= g < guest + LARGE_PAGE_SIZE ==> #[trigger] leaf(r, n, g) == Some(
                        (true, e),
                    )
            }
        }),
{
    let e = entry(host, large_device_flags(b));
    lemma_flags(b);
    lemma_entry(host as u64, large_device_flags(b));
    if reaches(r, guest) {
        let linked = with_level2_linked(b, r, m, guest);
        lemma_level3_write(b, r, m, guest);
        lemma_level2_entry(b, r, linked, guest);
        if linked[level2_slot(r, guest)] == 0 {
            lemma_level2_write(b, r, linked, guest, e);
            let n = linked.insert(level2_slot(r, guest), e);
            assert(n.dom() =~= m.dom());
            assert forall|g: int|
                0 <= g && guest <= g < guest + LARGE_PAGE_SIZE implies #[trigger] leaf(r, m, g) is None by {
                lemma_same_large(r, guest, g);
                assert(leaf(r, linked, g) == leaf(r, m, g));
                lemma_leaf_at(r, linked, g);
            }
            assert forall|g: int|
                0 <= g && reaches(r, g) && !(guest <= g < guest
                    + LARGE_PAGE_SIZE) implies #[trigger] leaf(r, n, g) == leaf(r, m, g) by {
                assert(leaf(r, linked, g) == leaf(r, m, g));
            }
        }
    }
}

/// A leaf table is found or made, or there is none; nothing that is mapped
/// changes.
proof fn lemma_with_leaf_table(
    b: BackendKind,
    r: NestedPageResources,
    m: Map<int, u64>,
    guest: int,
)
    requires
        tables_wf(b, r, m),
        0 <= guest,
        reaches(r, guest),
    ensures
        ({
            let (ready, n) = with_leaf_table(b, r, m, guest);
            let e = n[level2_slot(r, guest)];
            &&& tables_wf(b, r, n)
            &&& n.dom() == m.dom()
            &&& same_leaves(r, m, n)
            &&& ready ==> e != 0 && e & NESTED_LARGE_PAGE == 0
        }),
{
    let linked = with_level2_linked(b, r, m, guest);
    lemma_level3_write(b, r, m, guest);
    lemma_level2_entry(b, r, linked, guest);
    let (ready, n) = with_leaf_table(b, r, m, guest);
    let e = linked[level2_slot(r, guest)];
    lemma_flags(b);
    if e & ENTRY_ADDRESS == 0 && device_tables(r, linked) < r.device_level1_pages {
        lemma_new_table(b, r, linked, guest);
        assert(n.dom() =~= m.dom());
        assert forall|g: int| 0 <= g && reaches(r, g) implies #[trigger] leaf(r, n, g) == leaf(
            r,
            m,
            g,
        ) by {
            assert(leaf(r, linked, g) == leaf(r, m, g));
        }
    }
}

/// A small leaf appears where nothing was mapped, or nothing changes.
proof fn lemma_small_step(
    b: BackendKind,
    r: NestedPageResources,
    m: Map<int, u64>,
    guest: int,
    host: int,
)
    requires
        tables_wf(b, r, m),
        0 <= guest,
        guest % 0x1000 == 0,
        0 < host < PHYSICAL_LIMIT,
        host % 0x1000 == 0,
    ensures
        ({
            let (ok, n) = small_step(b, r, m, guest, host);
            let e = entry(host, device_flags(b));
            &&& tables_wf(b, r, n)
            &&& n.dom() == m.dom()
            &&& !ok ==> same_leaves(r, m, n)
            &&& ok ==> {
                &&& reaches(r, guest)
                &&& no_leaves(r, m, guest, 0x1000)
                &&& same_leaves_outside(r, m, n, guest, 0x1000)
                &&& forall|g: int|
                    guest <= g < guest + 0x1000 ==> #[trigger] leaf(r, n, g) == Some((false, e))
            }
        }),
{
    let value = entry(host, device_flags(b));
    lemma_flags(b);
    lemma_entry(host as u64, device_flags(b));
    if reaches(r, guest) {
        let (ready, tables) = with_leaf_table(b, r, m, guest);
        lemma_with_leaf_table(b, r, m, guest);
        let f = tables[level2_slot(r, guest)];
        if ready {
            lemma_level2_entry(b, r, tables, guest);
            if tables[leaf_slot(f, guest)] == 0 {
                lemma_leaf_write(b, r, tables, guest, value);
                let n = tables.insert(leaf_slot(f, guest), value);
                assert(n.dom() =~= m.dom());
                assert forall|g: int|
                    0 <= g && guest <= g < guest + 0x1000 implies #[trigger] leaf(r, m, g) is None by {
                    lemma_same_page(r, f, guest, g);
                    assert(leaf(r, tables, g) == leaf(r, m, g));
                    lemma_leaf_at(r, tables, g);
                }
                assert forall|g: int|
                    0 <= g && reaches(r, g) && !(guest <= g < guest + 0x1000) implies #[trigger] leaf(
                    r,
                    n,
                    g,
                ) == leaf(r, m, g) by {
                    assert(leaf(r, tables, g) == leaf(r, m, g));
                }
            }
        }
    }
}

proof fn lemma_leaf_at(r: NestedPageResources, m: Map<int, u64>, guest: int)
    ensures
        leaf(r, m, guest) == {
            let e = m[level2_slot(r, guest)];
            if e & NESTED_LARGE_PAGE != 0 {
                Some((true, e))
            } else if e & ENTRY_ADDRESS == 0 || m[leaf_slot(e, guest)] == 0 {
                None
            } else {
                Some((false, m[leaf_slot(e, guest)]))
            }
        },
{
    reveal(leaf);
}

/// The leaf at the address disappears, or nothing changes.
proof fn lemma_unmap_step(b: BackendKind, r: NestedPageResources, m: Map<int, u64>, guest: int)
    requires
        tables_wf(b, r, m),
        0 <= guest,
        guest % 0x1000 == 0,
    ensures
        ({
            let (size, n) = unmap_step(b, r, m, guest);
            let from = if size == LARGE_PAGE_SIZE {
                guest - guest % (LARGE_PAGE_SIZE as int)
            } else {
                guest
            };
            &&& tables_wf(b, r, n)
            &&& n.dom() == m.dom()
            &&& size == 0 || size == 0x1000 || size == LARGE_PAGE_SIZE
            &&& size == 0 ==> same_leaves(r, m, n)
            &&& size > 0 ==> {
                &&& reaches(r, guest)
                &&& same_leaves_outside(r, m, n, from, size)
                &&& no_leaves(r, n, from, size)
            }
            &&& size == 0 <==> !reaches(r, guest) || leaf(r, m, guest) is None
            &&& reaches(r, guest) ==> (size == LARGE_PAGE_SIZE <==> is_large(leaf(r, m, guest)))
        }),
{
    lemma_flags(b);
    if reaches(r, guest) {
        let linked = with_level2_linked(b, r, m, guest);
        lemma_level3_write(b, r, m, guest);
        lemma_level2_entry(b, r, linked, guest);
        assert(leaf(r, linked, guest) == leaf(r, m, guest));
        lemma_leaf_at(r, linked, guest);
        let e = linked[level2_slot(r, guest)];
        if e & NESTED_LARGE_PAGE != 0 {
            let from = guest - guest % (LARGE_PAGE_SIZE as int);
            lemma_same_large(r, from, guest);
            lemma_level2_write(b, r, linked, from, 0);
            let n = linked.insert(level2_slot(r, guest), 0);
            assert(n.dom() =~= m.dom());
            assert forall|g: int|
                0 <= g && reaches(r, g) && !(from <= g < from
                    + LARGE_PAGE_SIZE) implies #[trigger] leaf(r, n, g) == leaf(r, m, g) by {
                assert(leaf(r, linked, g) == leaf(r, m, g));
            }
        } else if e != 0 && linked[leaf_slot(e, guest)] != 0 {
            lemma_leaf_write(b, r, linked, guest, 0);
            let n = linked.insert(leaf_slot(e, guest), 0);
            assert(n.dom() =~= m.dom());
            assert forall|g: int|
                0 <= g && reaches(r, g) && !(guest <= g < guest + 0x1000) implies #[trigger] leaf(
                r,
                n,
                g,
            ) == leaf(r, m, g) by {
                assert(leaf(r, linked, g) == leaf(r, m, g));
            }
        }
    }
}

impl NestedPageTable {
    /// Maps two megabytes with one leaf.
    fn map_device_large_page(
        &self,
        guest: u64,
        host: u64,
        memory: &mut PhysicalMemory,
    ) -> (r: Result<(), Error>)
        requires
            old(memory).wf(),
            self.tables_wf(old(memory)@),
        ensures
            final(memory).wf(),
            ({
                let (ok, n) = large_step(
                    self.spec_backend(),
                    self@,
                    old(memory)@,
                    guest as int,
                    host as int,
                );
                &&& final(memory)@ == n
                &&& r == (if ok {
                    Ok::<(), Error>(())
                } else {
                    Err(Error::InvalidPage)
                })
            }),
    {
        let address: u64 = self.sparse_level2_entry(guest, memory)?;
        proof {
            lemma_tables(self.spec_backend(), self@, old(memory)@);
            lemma_level3_write(self.spec_backend(), self@, old(memory)@, guest as int);
            lemma_level2_entry(self.spec_backend(), self@, old(memory)@, guest as int);
        }
        if memory.read(address) != 0 {
            return Err(Error::InvalidPage);
        }
        memory.write(address, host | (self.device_page_flags() | NESTED_LARGE_PAGE));
        Ok(())
    }

    /// Maps one page, with a new leaf table if there is none yet.
    fn map_sparse_device_page(
        &self,
        guest: u64,
        host: u64,
        memory: &mut PhysicalMemory,
    ) -> (r: Result<(), Error>)
        requires
            old(memory).wf(),
            self.tables_wf(old(memory)@),
        ensures
            final(memory).wf(),
            ({
                let (ok, n) = small_step(
                    self.spec_backend(),
                    self@,
                    old(memory)@,
                    guest as int,
                    host as int,
                );
                &&& final(memory)@ == n
                &&& r == (if ok {
                    Ok::<(), Error>(())
                } else {
                    Err(Error::InvalidPage)
                })
            }),
    {
        let ghost b = self.spec_backend();
        let ghost before = old(memory)@;
        let level2_entry: u64 = self.sparse_level2_entry(guest, memory)?;
        proof {
            lemma_tables(b, self@, before);
            lemma_level3_write(b, self@, before, guest as int);
            lemma_level2_entry(b, self@, memory@, guest as int);
            lemma_flags(b);
        }
        let value: u64 = memory.read(level2_entry);
        let mut level1: u64 = value & ENTRY_ADDRESS;
        if level1 == 0 {
            let index: u64 = memory.read(self.resources.device_state);
            if index >= self.resources.device_level1_pages as u64 {
                return Err(Error::InvalidPage);
            }
            proof {
                lemma_new_table(b, self@, memory@, guest as int);
                lemma_link(b, self@.device_level1 + 0x1000 * index);
            }
            level1 = self.resources.device_level1 + index * PAGE_SIZE;
            memory.write(self.resources.device_state, index + 1);
            memory.write(level2_entry, level1 | self.table_link_flags());
        } else if value & NESTED_LARGE_PAGE != 0 {
            return Err(Error::InvalidPage);
        }
        assert(memory@ == with_leaf_table(b, self@, before, guest as int).1);
        proof {
            lemma_level2_entry(b, self@, memory@, guest as int);
        }
        let address: u64 = level1 + 8 * (guest / PAGE_SIZE % 512);
        if memory.read(address) != 0 {
            return Err(Error::InvalidPage);
        }
        memory.write(address, host | self.device_page_flags());
        Ok(())
    }
}

/// The leaf sends the guest address to the host address of a device.
#[verifier::opaque]
pub open spec fn points_to(l: Option<(bool, u64)>, b: BackendKind, guest: int, host: int) -> bool {
    match l {
        Some((true, e)) => {
            &&& guest % LARGE_PAGE_SIZE as int == host % LARGE_PAGE_SIZE as int
            &&& e == entry(host - host % (LARGE_PAGE_SIZE as int), large_device_flags(b))
        },
        Some((false, e)) => {
            &&& guest % 0x1000 == host % 0x1000
            &&& e == entry(host - host % 0x1000, device_flags(b))
        },
        None => false,
    }
}

/// Every address of the guest range is sent to its counterpart in the host range.
pub open spec fn maps_range(
    b: BackendKind,
    r: NestedPageResources,
    m: Map<int, u64>,
    guest: int,
    host: int,
    len: int,
) -> bool {
    forall|g: int|
        guest <= g < guest + len ==> points_to(#[trigger] leaf(r, m, g), b, g, host + (g - guest))
}

/// The range is covered by whole leaves.
pub open spec fn tiled(r: NestedPageResources, m: Map<int, u64>, guest: int, len: int) -> bool
    decreases
            (if len > 0 {
                len
            } else {
                0
            }),
{
    ||| len == 0
    ||| len >= LARGE_PAGE_SIZE && guest % LARGE_PAGE_SIZE as int == 0 && is_large(
        leaf(r, m, guest),
    ) && tiled(r, m, guest + LARGE_PAGE_SIZE, len - LARGE_PAGE_SIZE)
    ||| len >= 0x1000 && leaf(r, m, guest) is Some && !is_large(leaf(r, m, guest)) && tiled(
        r,
        m,
        guest + 0x1000,
        len - 0x1000,
    )
}

pub proof fn lemma_tiled_frame(
    r: NestedPageResources,
    m: Map<int, u64>,
    n: Map<int, u64>,
    guest: int,
    len: int,
)
    requires
        tiled(r, m, guest, len),
        forall|g: int| guest <= g < guest + len ==> #[trigger] leaf(r, n, g) == leaf(r, m, g),
    ensures
        tiled(r, n, guest, len),
    decreases len,
{
    if len > 0 {
        assert(leaf(r, n, guest) == leaf(r, m, guest));
        if is_large(leaf(r, m, guest)) {
            lemma_tiled_frame(r, m, n, guest + LARGE_PAGE_SIZE, len - LARGE_PAGE_SIZE);
        } else {
            lemma_tiled_frame(r, m, n, guest + 0x1000, len - 0x1000);
        }
    }
}

/// The first leaf of a range.
#[verifier::opaque]
spec fn map_step(
    b: BackendKind,
    r: NestedPageResources,
    m: Map<int, u64>,
    guest: int,
    host: int,
    len: int,
) -> (bool, Map<int, u64>) {
    if starts_large(guest, host, len) {
        large_step(b, r, m, guest, host)
    } else {
        small_step(b, r, m, guest, host)
    }
}

/// The size of the first leaf of a range.
spec fn step_size(guest: int, host: int, len: int) -> int {
    if starts_large(guest, host, len) {
        LARGE_PAGE_SIZE as int
    } else {
        0x1000
    }
}

/// One leaf appears where nothing was mapped, or nothing changes.
#[verifier::spinoff_prover]
#[verifier::rlimit(60)]
proof fn lemma_map_step(
    b: BackendKind,
    r: NestedPageResources,
    m: Map<int, u64>,
    guest: int,
    host: int,
    len: int,
)
    requires
        tables_wf(b, r, m),
        0 <= guest,
        guest % 0x1000 == 0,
        0 < host < PHYSICAL_LIMIT,
        host % 0x1000 == 0,
    ensures
        ({
            let (ok, n) = map_step(b, r, m, guest, host, len);
            let size = step_size(guest, host, len);
            &&& tables_wf(b, r, n)
            &&& n.dom() == m.dom()
            &&& !ok ==> same_leaves(r, m, n)
            &&& ok ==> {
                &&& no_leaves(r, m, guest, size)
                &&& same_leaves_outside(r, m, n, guest, size)
                &&& maps_range(b, r, n, guest, host, size)
                &&& leaf(r, n, guest) is Some
                &&& is_large(leaf(r, n, guest)) == starts_large(guest, host, len)
            }
        }),
{
    reveal(map_step);
    let (ok, n) = map_step(b, r, m, guest, host, len);
    reveal(points_to);
    if starts_large(guest, host, len) {
        lemma_large_step(b, r, m, guest, host);
        if ok {
            assert(leaf(r, n, guest) == Some((true, entry(host, large_device_flags(b)))));
            assert forall|g: int| guest <= g < guest + LARGE_PAGE_SIZE implies points_to(
                #[trigger] leaf(r, n, g),
                b,
                g,
                host + (g - guest),
            ) by {
                let h = host + (g - guest);
                assert(h % (LARGE_PAGE_SIZE as int) == g - guest);
                assert(g % (LARGE_PAGE_SIZE as int) == g - guest);
            }
        }
    } else {
        lemma_small_step(b, r, m, guest, host);
        if ok {
            assert(leaf(r, n, guest) == Some((false, entry(host, device_flags(b)))));
            assert forall|g: int| guest <= g < guest + 0x1000 implies points_to(
                #[trigger] leaf(r, n, g),
                b,
                g,
                host + (g - guest),
            ) by {
                let h = host + (g - guest);
                assert(h % 0x1000 == g - guest);
                assert(g % 0x1000 == g - guest);
            }
        }
    }
}

/// Mapping a range is mapping its first leaf and then the rest.
proof fn lemma_map_leaves_unfold(
    b: BackendKind,
    r: NestedPageResources,
    m: Map<int, u64>,
    guest: int,
    host: int,
    len: int,
)
    requires
        len > 0,
    ensures
        ({
            let size = step_size(guest, host, len);
            let (ok, next) = map_step(b, r, m, guest, host, len);
            map_leaves(b, r, m, guest, host, len) == (if ok {
                map_leaves(b, r, next, guest + size, host + size, len - size)
            } else {
                (false, next, len)
            })
        }),
{
    reveal(map_step);
    reveal_with_fuel(map_leaves, 2);
}

/// Mapping nothing does nothing.
proof fn lemma_map_leaves_empty(
    b: BackendKind,
    r: NestedPageResources,
    m: Map<int, u64>,
    guest: int,
    host: int,
)
    ensures
        map_leaves(b, r, m, guest, host, 0) == (true, m, 0int),
{
    reveal_with_fuel(map_leaves, 1);
}

/// Removing a range is removing its first leaf and then the rest.
proof fn lemma_unmap_leaves_unfold(
    b: BackendKind,
    r: NestedPageResources,
    m: Map<int, u64>,
    guest: int,
    len: int,
)
    ensures
        unmap_leaves(b, r, m, guest, len) == (if len <= 0 {
            (true, m)
        } else {
            let (size, next) = unmap_step(b, r, m, guest);
            if size <= 0 {
                (false, next)
            } else {
                unmap_leaves(b, r, next, guest + size, len - size)
            }
        }),
{
    reveal_with_fuel(unmap_leaves, 2);
}

/// What mapping leaf by leaf does, up to the point where it stops.
#[verifier::spinoff_prover]
pub proof fn lemma_map_leaves(
    b: BackendKind,
    r: NestedPageResources,
    m: Map<int, u64>,
    guest: int,
    host: int,
    len: int,
)
    requires
        tables_wf(b, r, m),
        0 <= guest,
        guest % 0x1000 == 0,
        0 < host,
        host % 0x1000 == 0,
        0 <= len,
        len % 0x1000 == 0,
        host + len <= PHYSICAL_LIMIT,
        guest + len <= GIGABYTE * r.level2_pages,
    ensures
        ({
            let (ok, n, left) = map_leaves(b, r, m, guest, host, len);
            &&& tables_wf(b, r, n)
            &&& n.dom() == m.dom()
            &&& 0 <= left <= len
            &&& left % 0x1000 == 0
            &&& ok ==> left == 0
            &&& maps_range(b, r, n, guest, host, len - left)
            &&& same_leaves_outside(r, m, n, guest, len - left)
            &&& no_leaves(r, m, guest, len - left)
            &&& tiled(r, n, guest, len - left)
        }),
    decreases len,
{
    lemma_map_leaves_empty(b, r, m, guest, host);
    if len > 0 {
        let size = step_size(guest, host, len);
        let (ok, next) = map_step(b, r, m, guest, host, len);
        lemma_map_step(b, r, m, guest, host, len);
        lemma_map_leaves_unfold(b, r, m, guest, host, len);
        let (all, n, left) = map_leaves(b, r, m, guest, host, len);
        let done = len - left;
        if ok {
            lemma_map_leaves(b, r, next, guest + size, host + size, len - size);
            assert((all, n, left) == map_leaves(b, r, next, guest + size, host + size, len - size));
            assert(done >= size);
            lemma_join_ranges(b, r, m, next, n, guest, host, size, done);
            lemma_reach(r, guest);
            assert(leaf(r, n, guest) == leaf(r, next, guest));
        } else {
            assert(done == 0);
        }
    }
}

/// A range that is mapped in two parts, one after the other, is mapped.
proof fn lemma_join_ranges(
    b: BackendKind,
    r: NestedPageResources,
    m: Map<int, u64>,
    next: Map<int, u64>,
    n: Map<int, u64>,
    guest: int,
    host: int,
    size: int,
    done: int,
)
    requires
        0 <= guest,
        0 <= size <= done,
        guest + done <= GIGABYTE * r.level2_pages,
        no_leaves(r, m, guest, size),
        same_leaves_outside(r, m, next, guest, size),
        maps_range(b, r, next, guest, host, size),
        no_leaves(r, next, guest + size, done - size),
        same_leaves_outside(r, next, n, guest + size, done - size),
        maps_range(b, r, n, guest + size, host + size, done - size),
    ensures
        no_leaves(r, m, guest, done),
        same_leaves_outside(r, m, n, guest, done),
        maps_range(b, r, n, guest, host, done),
{
    assert forall|g: int| guest <= g < guest + done implies points_to(
        #[trigger] leaf(r, n, g),
        b,
        g,
        host + (g - guest),
    ) by {
        lemma_reach(r, g);
        if g < guest + size {
            assert(leaf(r, n, g) == leaf(r, next, g));
        } else {
            assert(host + size + (g - (guest + size)) == host + (g - guest));
        }
    }
    assert forall|g: int|
        0 <= g && reaches(r, g) && !(guest <= g < guest + done) implies #[trigger] leaf(r, n, g)
        == leaf(r, m, g) by {
        assert(leaf(r, next, g) == leaf(r, m, g));
    }
    assert forall|g: int| 0 <= g && guest <= g < guest + done implies #[trigger] leaf(
        r,
        m,
        g,
    ) is None by {
        lemma_reach(r, g);
        if g >= guest + size {
            assert(leaf(r, next, g) == leaf(r, m, g));
            assert(leaf(r, next, g) is None);
        }
    }
}

/// Addresses below the end of the tables are within reach.
pub proof fn lemma_reach(r: NestedPageResources, g: int)
    requires
        0 <= g < GIGABYTE * r.level2_pages,
    ensures
        reaches(r, g),
{
    reveal(reaches);
}

/// Removing a range of whole leaves leaves nothing there and all else alone.
pub proof fn lemma_unmap_tiled(
    b: BackendKind,
    r: NestedPageResources,
    m: Map<int, u64>,
    guest: int,
    len: int,
)
    requires
        tables_wf(b, r, m),
        0 <= guest,
        guest % 0x1000 == 0,
        0 <= len,
        guest + len <= GIGABYTE * r.level2_pages,
        tiled(r, m, guest, len),
    ensures
        ({
            let (ok, n) = unmap_leaves(b, r, m, guest, len);
            &&& ok
            &&& tables_wf(b, r, n)
            &&& n.dom() == m.dom()
            &&& no_leaves(r, n, guest, len)
            &&& same_leaves_outside(r, m, n, guest, len)
        }),
    decreases len,
{
    lemma_unmap_leaves_unfold(b, r, m, guest, len);
    if len > 0 {
        lemma_reach(r, guest);
        lemma_unmap_step(b, r, m, guest);
        let (size, next) = unmap_step(b, r, m, guest);
        assert(size > 0);
        assert forall|g: int| guest + size <= g < guest + len implies #[trigger] leaf(r, next, g)
            == leaf(r, m, g) by {
            lemma_reach(r, g);
        }
        lemma_tiled_frame(r, m, next, guest + size, len - size);
        lemma_unmap_tiled(b, r, next, guest + size, len - size);
        let n = unmap_leaves(b, r, m, guest, len).1;
        assert forall|g: int| 0 <= g && guest <= g < guest + len implies #[trigger] leaf(
            r,
            n,
            g,
        ) is None by {
            lemma_reach(r, g);
            if g < guest + size {
                assert(leaf(r, n, g) == leaf(r, next, g));
            }
        }
        assert forall|g: int|
            0 <= g && reaches(r, g) && !(guest <= g < guest + len) implies #[trigger] leaf(r, n, g)
            == leaf(r, m, g) by {
            assert(leaf(r, next, g) == leaf(r, m, g));
        }
    }
}

/// A device range is mapped as a whole, where nothing was mapped before, or not
/// at all: after a failure every guest address translates as before.
pub proof fn law_map_range_is_transactional(
    b: BackendKind,
    r: NestedPageResources,
    m: Map<int, u64>,
    guest_start: u64,
    host_start: u64,
    len: u64,
)
    requires
        tables_wf(b, r, m),
        host_start + len <= PHYSICAL_LIMIT,
    ensures
        ({
            let (ok, n) = map_range(b, r, m, guest_start, host_start, len);
            &&& tables_wf(b, r, n)
            &&& ok ==> {
                &&& no_leaves(r, m, guest_start as int, len as int)
                &&& maps_range(b, r, n, guest_start as int, host_start as int, len as int)
                &&& same_leaves_outside(r, m, n, guest_start as int, len as int)
            }
            &&& !ok ==> same_leaves(r, m, n)
        }),
{
    if is_mappable_range(r, guest_start, host_start, len) {
        let guest = guest_start as int;
        lemma_map_leaves(b, r, m, guest, host_start as int, len as int);
        let (ok, next, left) = map_leaves(b, r, m, guest, host_start as int, len as int);
        if !ok {
            lemma_unmap_tiled(b, r, next, guest, len - left);
            let n = unmap_leaves(b, r, next, guest, len - left).1;
            assert forall|g: int| 0 <= g && reaches(r, g) implies #[trigger] leaf(r, n, g) == leaf(
                r,
                m,
                g,
            ) by {
                assert(guest <= g < guest + (len - left) || leaf(r, next, g) == leaf(r, m, g));
            }
        }
    }
}

/// Unmapping a device range that was just mapped succeeds, and every guest
/// address translates as it did before the mapping.
pub proof fn law_unmap_undoes_map(
    b: BackendKind,
    r: NestedPageResources,
    m: Map<int, u64>,
    guest_start: u64,
    host_start: u64,
    len: u64,
)
    requires
        tables_wf(b, r, m),
        host_start + len <= PHYSICAL_LIMIT,
        map_range(b, r, m, guest_start, host_start, len).0,
    ensures
        ({
            let n = map_range(b, r, m, guest_start, host_start, len).1;
            let (ok, u) = unmap_leaves(b, r, n, guest_start as int, len as int);
            &&& ok
            &&& tables_wf(b, r, u)
            &&& same_leaves(r, m, u)
        }),
{
    let guest = guest_start as int;
    lemma_map_leaves(b, r, m, guest, host_start as int, len as int);
    let n = map_range(b, r, m, guest_start, host_start, len).1;
    lemma_unmap_tiled(b, r, n, guest, len as int);
    let u = unmap_leaves(b, r, n, guest, len as int).1;
    assert forall|g: int| 0 <= g && reaches(r, g) implies #[trigger] leaf(r, u, g) == leaf(r, m, g) by {
        assert(guest <= g < guest + len || leaf(r, n, g) == leaf(r, m, g));
    }
}

impl NestedPageTable {
    /// Maps the first leaf of a range and gives its size.
    fn map_device_leaf(&self, guest: u64, host: u64, len: u64, memory: &mut PhysicalMemory) -> (r: (
        Result<(), Error>,
        u64,
    ))
        requires
            old(memory).wf(),
            self.tables_wf(old(memory)@),
        ensures
            final(memory).wf(),
            r.1 == step_size(guest as int, host as int, len as int),
            ({
                let (ok, n) = map_step(
                    self.spec_backend(),
                    self@,
                    old(memory)@,
                    guest as int,
                    host as int,
                    len as int,
                );
                &&& final(memory)@ == n
                &&& r.0 == (if ok {
                    Ok::<(), Error>(())
                } else {
                    Err(Error::InvalidPage)
                })
            }),
    {
        reveal(map_step);
        if guest % LARGE_PAGE_SIZE == 0 && host % LARGE_PAGE_SIZE == 0 && len >= LARGE_PAGE_SIZE {
            (self.map_device_large_page(guest, host, memory), LARGE_PAGE_SIZE)
        } else {
            (self.map_sparse_device_page(guest, host, memory), PAGE_SIZE)
        }
    }

    /// Maps a PCI BAR into sparse guest-physical MMIO space. Aligned portions
    /// use 2 MiB nested leaves so a large GPU aperture does not consume one
    /// page-table entry per 4 KiB page.
    ///
    /// The complete host range must be device MMIO. The vCPU must be stopped
    /// until the nested translation cache has been invalidated.
    pub fn map_device_range(
        &self,
        guest_start: u64,
        host_start: u64,
        len: u64,
        memory: &mut PhysicalMemory,
    ) -> (r: Result<(), Error>)
        requires
            old(memory).wf(),
            self.tables_wf(old(memory)@),
            host_start + len <= PHYSICAL_LIMIT,
        ensures
            final(memory).wf(),
            self.tables_wf(final(memory)@),
            ({
                let (ok, n) = map_range(
                    self.spec_backend(),
                    self@,
                    old(memory)@,
                    guest_start,
                    host_start,
                    len,
                );
                &&& final(memory)@ == n
                &&& r == (if ok {
                    Ok::<(), Error>(())
                } else {
                    Err(Error::InvalidPage)
                })
            }),
    {
        let ghost b = self.spec_backend();
        let ghost before = old(memory)@;
        proof {
            lemma_tables(b, self@, before);
            law_map_range_is_transactional(b, self@, before, guest_start, host_start, len);
        }
        let end: u64 = match guest_start.checked_add(len) {
            Some(end) => end,
            None => {
                return Err(Error::InvalidPage);
            },
        };
        if guest_start < self.guest_memory_size() || guest_start % PAGE_SIZE != 0 || host_start == 0
            || host_start % PAGE_SIZE != 0 || len == 0 || len % PAGE_SIZE != 0 || end
            > self.resources.level2_pages as u64 * GIGABYTE {
            return Err(Error::InvalidPage);
        }
        let mut offset: u64 = 0;
        while offset < len
            invariant
                b == self.spec_backend(),
                before == old(memory)@,
                memory.wf(),
                tables_wf(b, self@, memory@),
                tables_wf(b, self@, map_range(b, self@, before, guest_start, host_start, len).1),
                is_mappable_range(self@, guest_start, host_start, len),
                host_start + len <= PHYSICAL_LIMIT,
                GIGABYTE * self@.level2_pages <= 0x1_0000_0000_0000,
                offset <= len,
                offset % 0x1000 == 0,
                map_leaves(b, self@, before, guest_start as int, host_start as int, len as int)
                    == map_leaves(
                    b,
                    self@,
                    memory@,
                    guest_start + offset,
                    host_start + offset,
                    len - offset,
                ),
            decreases len - offset,
        {
            let guest: u64 = guest_start + offset;
            let host: u64 = host_start + offset;
            proof {
                lemma_map_step(b, self@, memory@, guest as int, host as int, len - offset);
                lemma_map_leaves_unfold(b, self@, memory@, guest as int, host as int, len - offset);
            }
            let (result, size) = self.map_device_leaf(guest, host, len - offset, memory);
            if result.is_err() {
                proof {
                    lemma_unmap_leaves_unfold(b, self@, memory@, guest_start as int, 0);
                }
                if offset != 0 {
                    // Keep the operation transactional. Callers may safely
                    // retry the assignment or release the other BARs without
                    // leaving a partially exposed device aperture behind.
                    let _ = self.unmap_device_range(guest_start, offset, memory);
                }
                return Err(Error::InvalidPage);
            }
            offset += size;
        }
        proof {
            lemma_map_leaves_empty(b, self@, memory@, guest_start + len, host_start + len);
        }
        Ok(())
    }

    /// Removes the leaf that maps a page, and gives its size.
    #[verifier::spinoff_prover]
    fn unmap_device_leaf(&self, guest: u64, memory: &mut PhysicalMemory) -> (r: Result<u64, Error>)
        requires
            old(memory).wf(),
            self.tables_wf(old(memory)@),
            guest % 0x1000 == 0,
        ensures
            final(memory).wf(),
            ({
                let (size, n) = unmap_step(
                    self.spec_backend(),
                    self@,
                    old(memory)@,
                    guest as int,
                );
                &&& final(memory)@ == n
                &&& size > 0 ==> guest + size <= 0x2_0000_0000_0000
                &&& r == (if size > 0 {
                    Ok::<u64, Error>(size as u64)
                } else {
                    Err(Error::InvalidPage)
                })
            }),
    {
        let ghost b = self.spec_backend();
        let ghost before = old(memory)@;
        proof {
            lemma_flags(b);
        }
        let level2_entry: u64 = self.sparse_level2_entry(guest, memory)?;
        proof {
            lemma_level3_write(b, self@, before, guest as int);
            lemma_level2_entry(b, self@, memory@, guest as int);
            lemma_tables(b, self@, before);
            reveal(reaches);
        }
        let value: u64 = memory.read(level2_entry);
        if value & NESTED_LARGE_PAGE != 0 {
            memory.write(level2_entry, 0);
            return Ok(LARGE_PAGE_SIZE);
        }
        let level1: u64 = value & ENTRY_ADDRESS;
        if level1 == 0 {
            return Err(Error::InvalidPage);
        }
        let address: u64 = level1 + 8 * (guest / PAGE_SIZE % 512);
        if memory.read(address) == 0 {
            return Err(Error::InvalidPage);
        }
        memory.write(address, 0);
        Ok(PAGE_SIZE)
    }

    /// Removes a sparse PCI BAR mapping. Page-table pages stay reserved for the
    /// Domain and may be reused only after a Domain restart.
    ///
    /// The vCPU must be stopped until the nested translation cache is flushed.
    pub fn unmap_device_range(
        &self,
        guest_start: u64,
        len: u64,
        memory: &mut PhysicalMemory,
    ) -> (r: Result<(), Error>)
        requires
            old(memory).wf(),
            self.tables_wf(old(memory)@),
        ensures
            final(memory).wf(),
            self.tables_wf(final(memory)@),
            if is_device_range(self@, guest_start, len) {
                let (ok, n) = unmap_leaves(
                    self.spec_backend(),
                    self@,
                    old(memory)@,
                    guest_start as int,
                    len as int,
                );
                &&& final(memory)@ == n
                &&& r == (if ok {
                    Ok::<(), Error>(())
                } else {
                    Err(Error::InvalidPage)
                })
            } else {
                r == Err::<(), Error>(Error::InvalidPage) && final(memory)@ == old(memory)@
            },
    {
        let ghost b = self.spec_backend();
        let ghost before = old(memory)@;
        proof {
            lemma_tables(b, self@, before);
        }
        if guest_start < self.guest_memory_size() || guest_start % PAGE_SIZE != 0 || len == 0 || len
            % PAGE_SIZE != 0 {
            return Err(Error::InvalidPage);
        }
        let mut offset: u64 = 0;
        while offset < len
            invariant
                b == self.spec_backend(),
                before == old(memory)@,
                memory.wf(),
                tables_wf(b, self@, memory@),
                is_device_range(self@, guest_start, len),
                offset % 0x1000 == 0,
                offset == 0 || guest_start + offset <= 0x2_0000_0000_0000,
                unmap_leaves(b, self@, before, guest_start as int, len as int) == unmap_leaves(
                    b,
                    self@,
                    memory@,
                    guest_start + offset,
                    len - offset,
                ),
            decreases
                    (if len > offset {
                        len - offset
                    } else {
                        0
                    }),
        {
            let guest: u64 = guest_start + offset;
            proof {
                lemma_unmap_step(b, self@, memory@, guest as int);
                lemma_unmap_leaves_unfold(b, self@, memory@, guest as int, len - offset);
            }
            offset += self.unmap_device_leaf(guest, memory)?;
        }
        proof {
            lemma_unmap_leaves_unfold(b, self@, memory@, guest_start + offset, len - offset);
        }
        Ok(())
    }
}

/// Freshly built tables have the shape that the operations keep.
proof fn lemma_initialized_tables(
    before: Map<int, u64>,
    m: Map<int, u64>,
    b: BackendKind,
    r: NestedPageResources,
)
    requires
        r.is_valid(),
        r.is_disjoint(),
        r.is_mapped(before),
        is_initialized(before, m, b, r),
    ensures
        tables_wf(b, r, m),
        is_separate(r),
{
    reveal(tables_wf);
    reveal(is_separate);
    lemma_flags(b);
    assert(m[slot(r.device_state as int, 0)] == 0);
    assert forall|i: int, j: int|
        0 <= i < j < 512 * r.level2_pages && m[slot(r.level2 as int, i)] != 0 && m[slot(
            r.level2 as int,
            i,
        )] & NESTED_LARGE_PAGE == 0 implies #[trigger] m[slot(r.level2 as int, i)]
        != #[trigger] m[slot(r.level2 as int, j)] by {
        lemma_link(b, r.level1 + 0x1000 * i);
        if j < r.level1_pages {
            lemma_link(b, r.level1 + 0x1000 * j);
        }
    }
}

/// What the hardware finds when it walks four levels from the root: the leaf, and
/// whether it spans two megabytes.
pub open spec fn walk(m: Map<int, u64>, root: int, gpa: int) -> Option<(bool, u64)> {
    let e4 = m[slot(root, gpa / 0x80_0000_0000 % 512)];
    let e3 = m[slot((e4 & ENTRY_ADDRESS) as int, gpa / (GIGABYTE as int) % 512)];
    let e2 = m[slot((e3 & ENTRY_ADDRESS) as int, gpa / (LARGE_PAGE_SIZE as int) % 512)];
    let e1 = m[slot((e2 & ENTRY_ADDRESS) as int, gpa / 0x1000 % 512)];
    if e4 & 1 == 0 || e3 & 1 == 0 || e2 & 1 == 0 {
        None
    } else if e2 & NESTED_LARGE_PAGE != 0 {
        Some((true, e2))
    } else if e1 & 1 == 0 {
        None
    } else {
        Some((false, e1))
    }
}

/// A fresh table sends every address of the Domain's RAM to the Domain's own
/// backing page, and maps no guest physical address outside that RAM.
pub proof fn law_only_own_ram_is_mapped(
    before: Map<int, u64>,
    m: Map<int, u64>,
    b: BackendKind,
    r: NestedPageResources,
    gpa: int,
)
    requires
        r.is_valid(),
        r.is_disjoint(),
        is_initialized(before, m, b, r),
        0 <= gpa < 0x1_0000_0000_0000,
    ensures
        walk(m, r.root as int, gpa) == (if gpa < 0x1000 * r.guest_pages {
            Some((false, entry(r.guest_base + (gpa - gpa % 0x1000), ram_flags(b))))
        } else {
            None
        }),
{
    let i4 = gpa / 0x80_0000_0000 % 512;
    let i3 = gpa / (GIGABYTE as int) % 512;
    let i2 = gpa / (LARGE_PAGE_SIZE as int) % 512;
    let i1 = gpa / 0x1000 % 512;
    lemma_flags(b);
    lemma_indices(gpa);
    let e4 = m[slot(r.root as int, i4)];
    if i4 < r.level3_pages {
        lemma_link(b, r.level3 + 0x1000 * i4);
        assert(slot((e4 & ENTRY_ADDRESS) as int, i3) == slot(r.level3 as int, 512 * i4 + i3));
        if i4 == 0 && i3 == 0 {
            lemma_link(b, r.level2 as int);
            let e3 = m[slot(r.level3 as int, 0)];
            assert(slot((e3 & ENTRY_ADDRESS) as int, i2) == slot(r.level2 as int, i2));
            let e2 = m[slot(r.level2 as int, i2)];
            if i2 < r.level1_pages {
                lemma_link(b, r.level1 + 0x1000 * i2);
                assert(slot((e2 & ENTRY_ADDRESS) as int, i1) == slot(
                    r.level1 as int,
                    512 * i2 + i1,
                ));
                let page = 512 * i2 + i1;
                if page < r.guest_pages {
                    lemma_entry((r.guest_base + 0x1000 * page) as u64, ram_flags(b));
                }
            }
        }
    }
}

/// The four indices of an address, put together again.
proof fn lemma_indices(gpa: int)
    requires
        0 <= gpa < 0x1_0000_0000_0000,
    ensures
        0 <= gpa / 0x80_0000_0000 % 512 < 512,
        0 <= gpa / (GIGABYTE as int) % 512 < 512,
        0 <= gpa / (LARGE_PAGE_SIZE as int) % 512 < 512,
        0 <= gpa / 0x1000 % 512 < 512,
        gpa - gpa % 0x1000 == 0x80_0000_0000 * (gpa / 0x80_0000_0000 % 512) + GIGABYTE * (gpa / (
        GIGABYTE as int) % 512) + LARGE_PAGE_SIZE * (gpa / (LARGE_PAGE_SIZE as int) % 512) + 0x1000
            * (gpa / 0x1000 % 512),
{
    let page = gpa / 0x1000;
    lemma_div_denominator(gpa, 0x1000, 512);
    lemma_div_denominator(gpa, LARGE_PAGE_SIZE as int, 512);
    lemma_div_denominator(gpa, GIGABYTE as int, 512);
    assert(gpa / (LARGE_PAGE_SIZE as int) == page / 512);
    assert(gpa / (GIGABYTE as int) == page / 512 / 512);
    assert(gpa / 0x80_0000_0000 == page / 512 / 512 / 512);
}

/// Restoring a page that was shared over the Domain's own page gives the tables
/// back as they were.
pub proof fn law_restore_undoes_share(
    b: BackendKind,
    r: NestedPageResources,
    m: Map<int, u64>,
    guest_page: u64,
    host_page: u64,
    writable: bool,
)
    requires
        r.is_valid(),
        r.is_mapped(m),
        is_ram_page(r, guest_page),
        m[ram_slot(r, guest_page)] == entry(r.guest_base + guest_page, ram_flags(b)),
    ensures
        m.insert(ram_slot(r, guest_page), host_page | shared_flags(b, writable)).insert(
            ram_slot(r, guest_page),
            entry(r.guest_base + guest_page, ram_flags(b)),
        ) == m,
{
    lemma_ram_slot_mapped(r, m, guest_page);
    assert(m.insert(ram_slot(r, guest_page), host_page | shared_flags(b, writable)).insert(
        ram_slot(r, guest_page),
        entry(r.guest_base + guest_page, ram_flags(b)),
    ) =~= m);
}

/// The rights of a page. A link lets everything pass. The Domain's own RAM can be read,
/// written and executed, and is cached. A shared page is cached and never executed, and
/// is written only where that was granted. A device page is read and written, not cached
/// and not executed; over two megabytes it differs in the size alone.
pub proof fn law_pages_have_their_rights(b: BackendKind)
    ensures
        b is IntelVmx ==> {
            &&& link_flags(b) == 1 + 2 + 4
            &&& ram_flags(b) == 1 + 2 + 4 + 8 * 6
            &&& shared_flags(b, false) == 1 + 8 * 6
            &&& shared_flags(b, true) == 1 + 2 + 8 * 6
            &&& device_flags(b) == 1 + 2
        },
        b is AmdSvm ==> {
            &&& link_flags(b) == 1 + 2 + 4
            &&& ram_flags(b) == 1 + 2 + 4
            &&& shared_flags(b, false) == 1 + 4 + 0x8000_0000_0000_0000
            &&& shared_flags(b, true) == 1 + 2 + 4 + 0x8000_0000_0000_0000
            &&& device_flags(b) == 1 + 2 + 4 + 8 + 16 + 0x8000_0000_0000_0000
        },
        large_device_flags(b) == device_flags(b) + 0x80,
{
    lemma_flags(b);
}

/// A native kernel starts with every address of its RAM mapped to itself, by pages of two
/// megabytes that it may write and that no lower ring reaches, and with nothing mapped
/// behind the RAM.
pub proof fn law_native_kernel_starts_with_identity_pages(
    before: Map<int, u64>,
    after: Map<int, u64>,
    r: NestedPageResources,
    i: int,
)
    requires
        r.is_valid(),
        has_guest_tables(before, after, r),
        0 <= i < 512,
    ensures
        after[r.guest_base + 8 * i] == (if i == 0 {
            0x1000 + 3int
        } else {
            0
        }),
        after[r.guest_base + 0x1000 + 8 * i] == (if i == 0 {
            0x2000 + 3int
        } else {
            0
        }),
        after[r.guest_base + 0x2000 + 8 * i] == (if 0x20_0000 * i < 0x1000 * r.guest_pages {
            0x20_0000 * i + 0x83
        } else {
            0
        }),
{
    let base = r.guest_base as int;
    assert(after[slot(base, i)] == after[base + 8 * i]);
    assert(after[slot(base + 0x1000, i)] == after[base + 0x1000 + 8 * i]);
    assert(after[slot(base + 0x2000, i)] == after[base + 0x2000 + 8 * i]);
    lemma_flags(BackendKind::IntelVmx);
    lemma_entry(0x1000, GUEST_PAGE_TABLE_FLAGS);
    lemma_entry(0x2000, GUEST_PAGE_TABLE_FLAGS);
    lemma_entry((0x20_0000 * i) as u64, GUEST_LARGE_PAGE_FLAGS);
}

/// The processor is told where the root is; one of Intel's also that the tables are
/// cached and have four levels.
pub proof fn law_processor_finds_the_root(table: NestedPageTable)
    requires
        table@.root % 0x1000 == 0,
        table@.root < PHYSICAL_LIMIT,
    ensures
        table.spec_hardware_root() == (match table.spec_backend() {
            BackendKind::IntelVmx => table@.root + 6 + 8 * (4 - 1),
            BackendKind::AmdSvm => table@.root as int,
        }),
{
    let root = table@.root;
    lemma_flags(BackendKind::IntelVmx);
    assert(root | 6 | 0x18 == root + 0x1e) by (bit_vector)
        requires
            root % 0x1000 == 0,
            root < 0x10_0000_0000_0000,
    ;
}

} // verus!
