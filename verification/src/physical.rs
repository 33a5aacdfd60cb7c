//! Physical memory as the hypervisor sees it: 64-bit words in mapped windows.

use vstd::prelude::*;

verus! {

/// A run of words that starts at the byte address `base`.
pub struct MemoryWindow {
    base: u64,
    words: Vec<u64>,
}

/// The memory that mBoot owns and may read and write.
pub struct PhysicalMemory {
    windows: Vec<MemoryWindow>,
}

impl MemoryWindow {
    spec fn wf(self) -> bool {
        self.base % 8 == 0 && self.base + 8 * self.words@.len() <= 0x1_0000_0000_0000_0000
    }

    spec fn holds(self, address: int) -> bool {
        address % 8 == 0 && self.base <= address < self.base + 8 * self.words@.len()
    }

    spec fn contents(self) -> Map<int, u64> {
        Map::new(|a: int| self.holds(a), |a: int| self.words@[(a - self.base) / 8])
    }
}

/// The words of the windows; a later window hides an earlier one.
spec fn contents(windows: Seq<MemoryWindow>) -> Map<int, u64>
    decreases windows.len(),
{
    if windows.len() == 0 {
        Map::empty()
    } else {
        contents(windows.drop_last()).union_prefer_right(windows.last().contents())
    }
}

/// Whether every word in `base..base + bytes` is mapped.
pub open spec fn covers(m: Map<int, u64>, base: int, bytes: int) -> bool {
    forall|a: int| base <= a < base + bytes && a % 8 == 0 ==> #[trigger] m.dom().contains(a)
}

/// Memory with every word in `base..base + bytes` cleared.
pub open spec fn cleared(m: Map<int, u64>, base: int, bytes: int) -> Map<int, u64> {
    Map::new(
        |a: int| m.dom().contains(a),
        |a: int|
            if base <= a < base + bytes {
                0
            } else {
                m[a]
            },
    )
}

impl View for PhysicalMemory {
    type V = Map<int, u64>;

    closed spec fn view(&self) -> Map<int, u64> {
        contents(self.windows@)
    }
}

/// An address that no window from `n` on holds is looked up among the first `n`.
proof fn lemma_lookup(windows: Seq<MemoryWindow>, n: int, address: int)
    requires
        0 <= n <= windows.len(),
        forall|i: int| n <= i < windows.len() ==> !(#[trigger] windows[i]).holds(address),
    ensures
        contents(windows).dom().contains(address) == contents(windows.take(n)).dom().contains(
            address,
        ),
        contents(windows).dom().contains(address) ==> contents(windows)[address] == contents(
            windows.take(n),
        )[address],
    decreases windows.len() - n,
{
    if n < windows.len() {
        lemma_lookup(windows, n + 1, address);
        assert(windows.take(n + 1).drop_last() =~= windows.take(n));
        assert(windows.take(n + 1).last() == windows[n]);
    } else {
        assert(windows.take(n) =~= windows);
    }
}

/// Changing the word that is seen at `address` changes nothing else.
proof fn lemma_store(
    before: Seq<MemoryWindow>,
    after: Seq<MemoryWindow>,
    n: int,
    address: int,
    value: u64,
)
    requires
        0 <= n < before.len() == after.len(),
        forall|i: int| 0 <= i < before.len() && i != n ==> #[trigger] after[i] == before[i],
        before[n].holds(address),
        forall|i: int| n < i < before.len() ==> !(#[trigger] before[i]).holds(address),
        after[n].base == before[n].base,
        after[n].words@ == before[n].words@.update((address - before[n].base) / 8, value),
    ensures
        contents(after) =~= contents(before).insert(address, value),
    decreases before.len(),
{
    let last = before.len() - 1;
    if n == last {
        assert(after.drop_last() =~= before.drop_last());
        assert(after.last().contents() =~= before.last().contents().insert(address, value));
    } else {
        assert(after.last() == before.last());
        assert(!before[last].holds(address));
        assert forall|i: int| 0 <= i < last && i != n implies #[trigger] after.drop_last()[i]
            == before.drop_last()[i] by {
            assert(after[i] == before[i]);
        }
        assert forall|i: int| n < i < last implies !(
        #[trigger] before.drop_last()[i]).holds(address) by {
            assert(!before[i].holds(address));
        }
        lemma_store(before.drop_last(), after.drop_last(), n, address, value);
    }
}

proof fn lemma_addresses(windows: Seq<MemoryWindow>)
    requires
        forall|i: int| 0 <= i < windows.len() ==> (#[trigger] windows[i]).wf(),
    ensures
        forall|a: int| #[trigger] contents(windows).dom().contains(a) ==> a % 8 == 0 && 0 <= a
            < 0x1_0000_0000_0000_0000,
    decreases windows.len(),
{
    if windows.len() > 0 {
        assert(windows[windows.len() - 1].wf());
        assert forall|i: int| 0 <= i < windows.len() - 1 implies (
        #[trigger] windows.drop_last()[i]).wf() by {
            assert(windows[i].wf());
        }
        lemma_addresses(windows.drop_last());
        assert forall|a: int| #[trigger] contents(windows).dom().contains(a) implies a % 8 == 0 && 0
            <= a < 0x1_0000_0000_0000_0000 by {
            if !windows.last().contents().dom().contains(a) {
                assert(contents(windows.drop_last()).dom().contains(a));
            }
        }
    }
}

/// Two words of one aligned run that are less than a word apart are the same.
proof fn lemma_same_word(base: int, index: int, address: int)
    requires
        base % 8 == 0,
        address % 8 == 0,
        base + 8 * index <= address < base + 8 * index + 8,
    ensures
        address == base + 8 * index,
{
}

impl PhysicalMemory {
    /// Every mapped word has the address of a word.
    pub proof fn lemma_addresses(&self)
        requires
            self.wf(),
        ensures
            forall|a: int| #[trigger] self@.dom().contains(a) ==> a % 8 == 0 && 0 <= a
                < 0x1_0000_0000_0000_0000,
    {
        lemma_addresses(self.windows@);
    }

    /// Windows start at word boundaries and end inside the address space.
    pub closed spec fn wf(self) -> bool {
        forall|i: int| 0 <= i < self.windows@.len() ==> (#[trigger] self.windows@[i]).wf()
    }

    /// Memory without any window.
    pub fn new() -> (r: Self)
        ensures
            r.wf(),
            r@ == Map::<int, u64>::empty(),
    {
        PhysicalMemory { windows: Vec::new() }
    }

    /// Maps `words` at `base`, over anything that was mapped there.
    pub fn add_window(&mut self, base: u64, words: Vec<u64>)
        requires
            old(self).wf(),
            base % 8 == 0,
            base + 8 * words@.len() <= 0x1_0000_0000_0000_0000,
        ensures
            final(self).wf(),
            final(self)@ == old(self)@.union_prefer_right(
                Map::new(
                    |a: int| a % 8 == 0 && base <= a < base + 8 * words@.len(),
                    |a: int| words@[(a - base) / 8],
                ),
            ),
    {
        let window = MemoryWindow { base, words };
        self.windows.push(window);
        assert(self.windows@.drop_last() =~= old(self).windows@);
        assert(window.contents() =~= Map::new(
            |a: int| a % 8 == 0 && base <= a < base + 8 * words@.len(),
            |a: int| words@[(a - base) / 8],
        ));
    }

    /// The window that shows the word at `address`, or the number of windows.
    fn find(&self, address: u64) -> (r: usize)
        requires
            self.wf(),
        ensures
            r <= self.windows@.len(),
            (r < self.windows@.len()) == self@.dom().contains(address as int),
            r < self.windows@.len() ==> {
                let w = self.windows@[r as int];
                &&& w.holds(address as int)
                &&& self@[address as int] == w.words@[(address - w.base) / 8]
                &&& forall|i: int|
                    r < i < self.windows@.len() ==> !(#[trigger] self.windows@[i]).holds(
                        address as int,
                    )
            },
    {
        let mut n: usize = self.windows.len();
        while n > 0
            invariant
                self.wf(),
                n <= self.windows@.len(),
                forall|i: int|
                    n <= i < self.windows@.len() ==> !(#[trigger] self.windows@[i]).holds(
                        address as int,
                    ),
            decreases n,
        {
            let window = &self.windows[n - 1];
            assert(window.wf());
            if address % 8 == 0 && address >= window.base && (address - window.base) / 8 < (
            window.words.len() as u64) {
                proof {
                    lemma_lookup(self.windows@, n as int, address as int);
                    assert(self.windows@.take(n as int).last() == self.windows@[n - 1]);
                }
                return n - 1;
            }
            n -= 1;
        }
        proof {
            lemma_lookup(self.windows@, 0, address as int);
            assert(self.windows@.take(0) =~= Seq::empty());
        }
        self.windows.len()
    }

    /// Whether the word at `address` is mapped.
    pub fn contains(&self, address: u64) -> (r: bool)
        requires
            self.wf(),
        ensures
            r == self@.dom().contains(address as int),
    {
        self.find(address) < self.windows.len()
    }

    /// The word at `address`.
    pub fn read(&self, address: u64) -> (r: u64)
        requires
            self.wf(),
            self@.dom().contains(address as int),
        ensures
            r == self@[address as int],
    {
        let n: usize = self.find(address);
        let window = &self.windows[n];
        assert((address - window.base) / 8 < window.words.len());
        window.words[((address - window.base) / 8) as usize]
    }

    /// Stores a word at `address`.
    pub fn write(&mut self, address: u64, value: u64)
        requires
            old(self).wf(),
            old(self)@.dom().contains(address as int),
        ensures
            final(self).wf(),
            final(self)@ == old(self)@.insert(address as int, value),
    {
        let n: usize = self.find(address);
        let index: usize = ((address - self.windows[n].base) / 8) as usize;
        assert((address - old(self).windows@[n as int].base) / 8 < old(self).windows@[n as int].words.len());
        self.windows[n].words[index] = value;
        proof {
            lemma_store(
                old(self).windows@,
                self.windows@,
                n as int,
                address as int,
                value,
            );
        }
    }

    /// Clears the `words` words from `address` on.
    pub fn clear(&mut self, address: u64, words: u64)
        requires
            old(self).wf(),
            address % 8 == 0,
            address + 8 * words <= 0x1_0000_0000_0000_0000,
            covers(old(self)@, address as int, 8 * words),
        ensures
            final(self).wf(),
            final(self)@ == cleared(old(self)@, address as int, 8 * words),
    {
        let mut i: u64 = 0;
        proof {
            self.lemma_addresses();
        }
        assert(self@ =~= cleared(old(self)@, address as int, 0));
        while i < words
            invariant
                i <= words,
                self.wf(),
                address % 8 == 0,
                address + 8 * words <= 0x1_0000_0000_0000_0000,
                covers(old(self)@, address as int, 8 * words),
                forall|a: int| old(self)@.dom().contains(a) ==> a % 8 == 0,
                self@ == cleared(old(self)@, address as int, 8 * i),
            decreases words - i,
        {
            assert(old(self)@.dom().contains(address + 8 * i));
            self.write(address + 8 * i, 0);
            proof {
                let before = cleared(old(self)@, address as int, 8 * i);
                let after = cleared(old(self)@, address as int, 8 * (i + 1));
                assert forall|a: int| #[trigger] after.dom().contains(a) implies after[a]
                    == before.insert(address + 8 * i, 0)[a] by {
                    if address + 8 * i <= a < address + 8 * i + 8 {
                        lemma_same_word(address as int, i as int, a);
                    }
                }
                assert(after =~= before.insert(address + 8 * i, 0));
            }
            i += 1;
        }
    }
}

} // verus!
