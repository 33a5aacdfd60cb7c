//! The memory map that the firmware leaves behind.

use vstd::prelude::*;

verus! {

/// A longer memory map is cut here.
pub const MAX_MEMORY_REGIONS: usize = 256;

/// A range of physical memory.
#[derive(Clone, Copy, Debug, PartialEq, Eq, Structural)]
pub struct MemoryRegion {
    pub start: u64,
    pub len: u64,
    /// Ordinary memory that nobody uses.
    pub usable: bool,
    /// Registers of a device.
    pub mmio: bool,
}

impl MemoryRegion {
    /// A region of whole pages.
    pub fn of_pages(start: u64, page_count: u64, usable: bool, mmio: bool) -> (r: Self)
        requires
            page_count * 4096 <= u64::MAX,
        ensures
            r == (MemoryRegion { start, len: (page_count * 4096) as u64, usable, mmio }),
    {
        MemoryRegion { start, len: page_count * 4096, usable, mmio }
    }
}

/// The regions that the firmware reported.
pub struct BootMemoryMap {
    regions: Vec<MemoryRegion>,
    overflowed: bool,
}

/// The regions, and whether some were left out.
#[verifier::ext_equal]
pub struct MemoryMapView {
    pub regions: Seq<MemoryRegion>,
    pub overflowed: bool,
}

impl View for BootMemoryMap {
    type V = MemoryMapView;

    closed spec fn view(&self) -> MemoryMapView {
        MemoryMapView { regions: self.regions@, overflowed: self.overflowed }
    }
}

/// The bytes of the first `n` regions that are usable.
pub open spec fn usable_of(regions: Seq<MemoryRegion>, n: int) -> int
    decreases n,
{
    if n <= 0 {
        0
    } else {
        usable_of(regions, n - 1) + (if regions[n - 1].usable {
            regions[n - 1].len as int
        } else {
            0
        })
    }
}

/// Whether the range shares no byte with the region, which ends where the address
/// space does at the latest.
pub open spec fn is_clear_of(start: int, end: int, region: MemoryRegion) -> bool {
    end <= region.start || start >= (if region.start + region.len <= u64::MAX {
        region.start + region.len
    } else {
        u64::MAX as int
    })
}

/// Whether a Domain may get the range as the registers of a device: whole pages
/// that overlap nothing but device registers. A map that was cut allows nothing.
pub open spec fn is_device_mmio(map: MemoryMapView, start: u64, len: u64) -> bool {
    &&& start + len <= u64::MAX
    &&& !map.overflowed
    &&& start != 0
    &&& len != 0
    &&& start % 0x1000 == 0
    &&& len % 0x1000 == 0
    &&& forall|i: int|
        0 <= i < map.regions.len() ==> is_clear_of(
            start as int,
            start + len,
            #[trigger] map.regions[i],
        ) || map.regions[i].mmio
}

proof fn lemma_usable_grows(regions: Seq<MemoryRegion>, n: int, m: int)
    requires
        0 <= n <= m,
    ensures
        0 <= usable_of(regions, n) <= usable_of(regions, m),
    decreases m,
{
    if n < m {
        lemma_usable_grows(regions, n, m - 1);
    } else if n > 0 {
        lemma_usable_grows(regions, n - 1, m - 1);
    }
}

impl BootMemoryMap {
    pub open spec fn wf(self) -> bool {
        self@.regions.len() <= MAX_MEMORY_REGIONS
    }

    pub fn new() -> (r: Self)
        ensures
            r.wf(),
            r@ == (MemoryMapView { regions: Seq::empty(), overflowed: false }),
    {
        BootMemoryMap { regions: Vec::new(), overflowed: false }
    }

    /// Adds a region, or remembers that there was no room for it.
    pub fn push(&mut self, region: MemoryRegion)
        requires
            old(self).wf(),
        ensures
            final(self).wf(),
            final(self)@ == (if old(self)@.regions.len() < MAX_MEMORY_REGIONS {
                MemoryMapView { regions: old(self)@.regions.push(region), ..old(self)@ }
            } else {
                MemoryMapView { overflowed: true, ..old(self)@ }
            }),
    {
        if self.regions.len() < MAX_MEMORY_REGIONS {
            self.regions.push(region);
        } else {
            self.overflowed = true;
        }
    }

    pub fn len(&self) -> (r: usize)
        ensures
            r == self@.regions.len(),
    {
        self.regions.len()
    }

    pub fn is_empty(&self) -> (r: bool)
        ensures
            r == (self@.regions.len() == 0),
    {
        self.regions.len() == 0
    }

    pub fn usable_bytes(&self) -> (r: u64)
        requires
            usable_of(self@.regions, self@.regions.len() as int) <= u64::MAX,
        ensures
            r == usable_of(self@.regions, self@.regions.len() as int),
    {
        let mut sum: u64 = 0;
        let mut i: usize = 0;
        while i < self.regions.len()
            invariant
                i <= self.regions.len(),
                self.regions@ == self@.regions,
                sum == usable_of(self@.regions, i as int),
                usable_of(self@.regions, self@.regions.len() as int) <= u64::MAX,
            decreases self.regions.len() - i,
        {
            proof {
                lemma_usable_grows(self@.regions, i + 1, self@.regions.len() as int);
            }
            if self.regions[i].usable {
                sum += self.regions[i].len;
            }
            i += 1;
        }
        sum
    }

    /// The lowest address of any region, or zero.
    pub fn lowest_address(&self) -> (r: u64)
        ensures
            self@.regions.len() == 0 ==> r == 0,
            self@.regions.len() > 0 ==> {
                &&& exists|i: int|
                    0 <= i < self@.regions.len() && (#[trigger] self@.regions[i]).start == r
                &&& forall|i: int|
                    0 <= i < self@.regions.len() ==> r <= (#[trigger] self@.regions[i]).start
            },
    {
        if self.regions.len() == 0 {
            return 0;
        }
        let mut lowest: u64 = self.regions[0].start;
        let mut i: usize = 1;
        while i < self.regions.len()
            invariant
                1 <= i <= self.regions.len(),
                self.regions@ == self@.regions,
                exists|j: int| 0 <= j < i && (#[trigger] self@.regions[j]).start == lowest,
                forall|j: int| 0 <= j < i ==> lowest <= (#[trigger] self@.regions[j]).start,
            decreases self.regions.len() - i,
        {
            if self.regions[i].start < lowest {
                lowest = self.regions[i].start;
                assert(self@.regions[i as int].start == lowest);
            }
            i += 1;
        }
        lowest
    }

    /// Whether a Domain may get the range as the registers of a device.
    pub fn allows_device_mmio(&self, start: u64, len: u64) -> (r: bool)
        ensures
            r == is_device_mmio(self@, start, len),
    {
        let end: u64 = match start.checked_add(len) {
            Some(end) => end,
            None => {
                return false;
            },
        };
        if self.overflowed || start == 0 || len == 0 || start % 0x1000 != 0 || len % 0x1000 != 0 {
            return false;
        }
        let mut i: usize = 0;
        while i < self.regions.len()
            invariant
                i <= self.regions.len(),
                self.regions@ == self@.regions,
                end == start + len,
                forall|j: int|
                    0 <= j < i ==> is_clear_of(
                        start as int,
                        start + len,
                        #[trigger] self@.regions[j],
                    ) || self@.regions[j].mmio,
            decreases self.regions.len() - i,
        {
            let region = self.regions[i];
            let region_end: u64 = region.start.saturating_add(region.len);
            if end > region.start && start < region_end && !region.mmio {
                assert(!is_clear_of(start as int, start + len, self@.regions[i as int]));
                return false;
            }
            i += 1;
        }
        true
    }
}

impl Default for BootMemoryMap {
    fn default() -> (r: Self)
        ensures
            r.wf(),
            r@ == (MemoryMapView { regions: Seq::empty(), overflowed: false }),
    {
        BootMemoryMap::new()
    }
}

/// No range that a Domain may get as device registers contains a byte of usable
/// memory, where the firmware reports no region as both.
pub proof fn law_usable_memory_is_no_device(
    map: MemoryMapView,
    start: u64,
    len: u64,
    i: int,
    byte: int,
)
    requires
        is_device_mmio(map, start, len),
        0 <= i < map.regions.len(),
        map.regions[i].usable,
        !map.regions[i].mmio,
        map.regions[i].start <= byte < map.regions[i].start + map.regions[i].len,
        byte < u64::MAX,
    ensures
        !(start <= byte < start + len),
{
    assert(is_clear_of(start as int, start + len, map.regions[i]));
}

/// Whether a region holds a byte. One that would pass the end of the address space ends
/// there.
pub open spec fn region_holds(region: MemoryRegion, byte: int) -> bool {
    region.start <= byte < region.start + region.len && byte < u64::MAX
}

/// Where no region is empty, a range may be given as device registers exactly where it is
/// whole pages other than the first, the map is complete, and no region that is not device
/// registers holds a byte of it.
pub proof fn law_device_range_meets_device_registers_alone(
    map: MemoryMapView,
    start: u64,
    len: u64,
)
    requires
        forall|i: int| 0 <= i < map.regions.len() ==> (#[trigger] map.regions[i]).len > 0,
        start + len < u64::MAX,
    ensures
        is_device_mmio(map, start, len) <==> !map.overflowed && start != 0 && len != 0 && start
            % 0x1000 == 0 && len % 0x1000 == 0 && forall|i: int, byte: int|
            0 <= i < map.regions.len() && start <= byte < start + len && #[trigger] region_holds(
                map.regions[i],
                byte,
            ) ==> map.regions[i].mmio,
{
    if is_device_mmio(map, start, len) {
        assert forall|i: int, byte: int|
            0 <= i < map.regions.len() && start <= byte < start + len && #[trigger] region_holds(
                map.regions[i],
                byte,
            ) implies map.regions[i].mmio by {
            assert(is_clear_of(start as int, start + len, map.regions[i]) || map.regions[i].mmio);
        }
    }
    if !map.overflowed && start != 0 && len != 0 && start % 0x1000 == 0 && len % 0x1000 == 0 && (
    forall|i: int, byte: int|
        0 <= i < map.regions.len() && start <= byte < start + len && #[trigger] region_holds(
            map.regions[i],
            byte,
        ) ==> map.regions[i].mmio) {
        assert forall|i: int| 0 <= i < map.regions.len() implies is_clear_of(
            start as int,
            start + len,
            #[trigger] map.regions[i],
        ) || map.regions[i].mmio by {
            let region = map.regions[i];
            let byte = if region.start >= start {
                region.start as int
            } else {
                start as int
            };
            if !is_clear_of(start as int, start + len, region) {
                assert(region_holds(map.regions[i], byte));
            }
        }
    }
}

/// The usable bytes of a map grow by the length of each usable region that is added, and
/// by nothing else.
pub proof fn law_usable_bytes_are_the_usable_regions(
    regions: Seq<MemoryRegion>,
    region: MemoryRegion,
    n: int,
)
    requires
        0 <= n <= regions.len(),
    ensures
        usable_of(Seq::empty(), 0) == 0,
        usable_of(regions.push(region), regions.len() + 1int) == usable_of(
            regions,
            regions.len() as int,
        ) + if region.usable {
            region.len as int
        } else {
            0
        },
        usable_of(regions.push(region), n) == usable_of(regions, n),
{
    lemma_usable_prefix(regions, region, n);
    lemma_usable_prefix(regions, region, regions.len() as int);
}

proof fn lemma_usable_prefix(regions: Seq<MemoryRegion>, region: MemoryRegion, n: int)
    requires
        0 <= n <= regions.len(),
    ensures
        usable_of(regions.push(region), n) == usable_of(regions, n),
    decreases n,
{
    if n > 0 {
        lemma_usable_prefix(regions, region, n - 1);
    }
}

} // verus!
