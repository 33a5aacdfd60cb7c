//! Which virtual CPU runs next.

use vstd::prelude::*;

verus! {

/// What a virtual CPU waits for.
#[derive(Clone, Copy, Debug, PartialEq, Eq, Structural)]
pub enum WaitState {
    Running,
    Interrupt,
    EventChannel,
}

impl Default for WaitState {
    fn default() -> (r: Self)
        ensures
            r == WaitState::Running,
    {
        WaitState::Running
    }
}

impl WaitState {
    /// Device IRQs remain queued while an EventWait awaits a port result.
    pub fn wake_for_interrupt(&mut self) -> (r: bool)
        ensures
            r == (*old(self) != WaitState::EventChannel),
            *final(self) == (if r {
                WaitState::Running
            } else {
                *old(self)
            }),
    {
        if *self == WaitState::EventChannel {
            return false;
        }
        *self = WaitState::Running;
        true
    }
}

#[derive(Clone, Copy, Debug)]
pub struct CooperativeScheduler {
    pub cursor: usize,
    pub resume: Option<usize>,
    pub slice_start: u64,
}

/// The `offset`-th virtual CPU from the cursor on, round the end.
pub open spec fn in_turn(len: int, cursor: int, offset: int) -> int {
    (cursor + offset) % len
}

/// The first runnable virtual CPU from the `offset`-th turn on.
pub open spec fn turn(runnable: Seq<bool>, cursor: int, offset: int) -> Option<int>
    decreases runnable.len() - offset,
{
    if offset < 0 || offset >= runnable.len() {
        None
    } else if runnable[in_turn(runnable.len() as int, cursor, offset)] {
        Some(in_turn(runnable.len() as int, cursor, offset))
    } else {
        turn(runnable, cursor, offset + 1)
    }
}

/// The cursor after a turn: behind the virtual CPU that was chosen.
pub open spec fn cursor_after(runnable: Seq<bool>, cursor: int) -> int {
    match turn(runnable, cursor, 0) {
        Some(index) => (index + 1) % (runnable.len() as int),
        None => cursor,
    }
}

/// A call that chooses the next virtual CPU: its result, and the scheduler before and
/// after it.
pub open spec fn takes_turn(
    before: CooperativeScheduler,
    runnable: Seq<bool>,
    r: Option<usize>,
    after: CooperativeScheduler,
) -> bool {
    &&& r == (match turn(runnable, before.cursor as int, 0) {
        Some(index) => Some(index as usize),
        None => None,
    })
    &&& after == (CooperativeScheduler {
        cursor: cursor_after(runnable, before.cursor as int) as usize,
        ..before
    })
}

/// The time since `start` on a clock that wraps around.
pub open spec fn elapsed(now: u64, start: u64) -> int {
    if now >= start {
        now - start
    } else {
        now - start + 0x1_0000_0000_0000_0000
    }
}

/// Whether the virtual CPU that emulation interrupted goes on.
pub open spec fn resumes(
    s: CooperativeScheduler,
    runnable: Seq<bool>,
    now: u64,
    budget: u64,
) -> bool {
    match s.resume {
        Some(index) => index < runnable.len() && runnable[index as int] && elapsed(
            now,
            s.slice_start,
        ) < budget,
        None => false,
    }
}

/// A call that chooses who runs at `now`: its result, and the scheduler before and after
/// it.
pub open spec fn takes_slice(
    before: CooperativeScheduler,
    runnable: Seq<bool>,
    now: u64,
    budget: u64,
    r: Option<usize>,
    after: CooperativeScheduler,
) -> bool {
    if resumes(before, runnable, now, budget) {
        &&& r == before.resume
        &&& after == (CooperativeScheduler { resume: None, ..before })
    } else {
        &&& r == (match turn(runnable, before.cursor as int, 0) {
            Some(index) => Some(index as usize),
            None => None,
        })
        &&& after == (CooperativeScheduler {
            cursor: cursor_after(runnable, before.cursor as int) as usize,
            resume: None,
            slice_start: now,
        })
    }
}

proof fn lemma_in_turn(len: int, cursor: int, start: int, offset: int)
    requires
        len > 0,
        cursor >= 0,
        0 <= offset < len,
        start == cursor % len,
    ensures
        in_turn(len, cursor, offset) == (if start + offset < len {
            start + offset
        } else {
            start + offset - len
        }),
{
    vstd::arithmetic::div_mod::lemma_add_mod_noop(cursor, offset, len);
    vstd::arithmetic::div_mod::lemma_small_mod(offset as nat, len as nat);
    if start + offset < len {
        vstd::arithmetic::div_mod::lemma_small_mod((start + offset) as nat, len as nat);
    } else {
        vstd::arithmetic::div_mod::lemma_mod_sub_multiples_vanish(start + offset, len);
        vstd::arithmetic::div_mod::lemma_small_mod((start + offset - len) as nat, len as nat);
    }
}

impl Default for CooperativeScheduler {
    fn default() -> (r: Self)
        ensures
            r == (CooperativeScheduler { cursor: 0, resume: None, slice_start: 0 }),
    {
        CooperativeScheduler::new()
    }
}

impl CooperativeScheduler {
    pub fn new() -> (r: Self)
        ensures
            r == (CooperativeScheduler { cursor: 0, resume: None, slice_start: 0 }),
    {
        CooperativeScheduler { cursor: 0, resume: None, slice_start: 0 }
    }

    /// Lets a virtual CPU go on in its slice after it was emulated.
    pub fn resume_after_emulation(&mut self, index: usize)
        ensures
            *final(self) == (CooperativeScheduler { resume: Some(index), ..*old(self) }),
    {
        self.resume = Some(index);
    }

    /// Emulation continues the current slice; it never renews its time budget.
    pub fn next_in_slice(&mut self, runnable: &[bool], now: u64, budget: u64) -> (r: Option<usize>)
        ensures
            takes_slice(*old(self), runnable@, now, budget, r, *final(self)),
    {
        let resume = self.resume;
        self.resume = None;
        if let Some(index) = resume {
            if index < runnable.len() && runnable[index] && now.wrapping_sub(self.slice_start)
                < budget {
                return Some(index);
            }
        }
        self.slice_start = now;
        self.next(runnable)
    }

    /// The next runnable virtual CPU, in turn.
    pub fn next(&mut self, runnable: &[bool]) -> (r: Option<usize>)
        ensures
            takes_turn(*old(self), runnable@, r, *final(self)),
            r matches Some(index) ==> index < runnable@.len() && runnable@[index as int],
    {
        if runnable.len() == 0 {
            return None;
        }
        let start: usize = self.cursor % runnable.len();
        let mut offset: usize = 0;
        while offset < runnable.len()
            invariant
                *self == *old(self),
                runnable.len() > 0,
                start == self.cursor % runnable.len(),
                offset <= runnable.len(),
                turn(runnable@, self.cursor as int, 0) == turn(
                    runnable@,
                    self.cursor as int,
                    offset as int,
                ),
            decreases runnable.len() - offset,
        {
            let index: usize = if offset < runnable.len() - start {
                start + offset
            } else {
                offset - (runnable.len() - start)
            };
            proof {
                lemma_in_turn(
                    runnable@.len() as int,
                    self.cursor as int,
                    start as int,
                    offset as int,
                );
            }
            if runnable[index] {
                self.cursor = (index + 1) % runnable.len();
                return Some(index);
            }
            offset += 1;
        }
        None
    }
}

/// What a turn finds is at the first offset that is runnable.
proof fn lemma_turn(runnable: Seq<bool>, cursor: int, offset: int, other: int)
    requires
        0 <= offset <= other < runnable.len(),
        runnable[in_turn(runnable.len() as int, cursor, other)],
    ensures
        exists|k: int|
            offset <= k <= other && turn(runnable, cursor, offset) == Some(
                #[trigger] in_turn(runnable.len() as int, cursor, k),
            ),
    decreases other - offset,
{
    let len = runnable.len() as int;
    if runnable[in_turn(len, cursor, offset)] {
        assert(turn(runnable, cursor, offset) == Some(in_turn(len, cursor, offset)));
    } else {
        lemma_turn(runnable, cursor, offset + 1, other);
        let k = choose|k: int|
            offset + 1 <= k <= other && turn(runnable, cursor, offset + 1) == Some(
                #[trigger] in_turn(len, cursor, k),
            );
        assert(turn(runnable, cursor, offset) == Some(in_turn(len, cursor, k)));
    }
}

/// No virtual CPU runs twice in a row while another is runnable.
pub proof fn law_peer_runs_before_repeat(
    runnable: Seq<bool>,
    cursor: int,
    index: int,
    peer: int,
)
    requires
        cursor >= 0,
        turn(runnable, cursor, 0) == Some(index),
        0 <= index < runnable.len(),
        0 <= peer < runnable.len(),
        peer != index,
        runnable[peer],
    ensures
        ({
            let next = turn(runnable, cursor_after(runnable, cursor), 0);
            next is Some && next != Some(index)
        }),
{
    let len = runnable.len() as int;
    let start = (index + 1) % len;
    vstd::arithmetic::div_mod::lemma_small_mod(start as nat, len as nat);
    let other = if peer >= start {
        peer - start
    } else {
        peer - start + len
    };
    assert(start == (if index + 1 < len {
        index + 1
    } else {
        0
    })) by {
        if index + 1 < len {
            vstd::arithmetic::div_mod::lemma_small_mod((index + 1) as nat, len as nat);
        } else {
            vstd::arithmetic::div_mod::lemma_mod_self_0(len);
        }
    }
    lemma_in_turn(len, start, start, other);
    lemma_turn(runnable, start, 0, other);
    let k = choose|k: int|
        0 <= k <= other && turn(runnable, start, 0) == Some(#[trigger] in_turn(len, start, k));
    lemma_in_turn(len, start, start, k);
    assert(k < len - 1);
}

/// How many of the first `n` virtual CPUs are runnable.
pub open spec fn runnable_count(runnable: Seq<bool>, n: int) -> int
    decreases n,
{
    if n <= 0 {
        0
    } else {
        runnable_count(runnable, n - 1) + (if runnable[n - 1] {
            1int
        } else {
            0
        })
    }
}

/// The virtual CPUs that the next `k` calls choose while the same ones are runnable.
pub open spec fn turns(runnable: Seq<bool>, cursor: int, k: int) -> Seq<int>
    decreases k,
{
    if k <= 0 {
        Seq::empty()
    } else {
        match turn(runnable, cursor, 0) {
            None => Seq::empty(),
            Some(index) => seq![index] + turns(runnable, cursor_after(runnable, cursor), k - 1),
        }
    }
}

/// The runnable virtual CPUs in the order of their places, from the `offset`-th place
/// behind the cursor on and round the end.
pub open spec fn cyclic_order(runnable: Seq<bool>, cursor: int, offset: int) -> Seq<int>
    decreases runnable.len() - offset,
{
    let index = in_turn(runnable.len() as int, cursor, offset);
    if offset >= runnable.len() {
        Seq::empty()
    } else if runnable[index] {
        seq![index] + cyclic_order(runnable, cursor, offset + 1)
    } else {
        cyclic_order(runnable, cursor, offset + 1)
    }
}

proof fn lemma_count_is_bounded(runnable: Seq<bool>, n: int, m: int)
    requires
        0 <= n <= m <= runnable.len(),
    ensures
        0 <= runnable_count(runnable, n) <= runnable_count(runnable, m),
    decreases m,
{
    if n < m {
        lemma_count_is_bounded(runnable, n, m - 1);
    } else if n > 0 {
        lemma_count_is_bounded(runnable, n - 1, m - 1);
    }
}

/// The virtual CPU is runnable, and at the `offset`-th place behind the cursor or later.
spec fn is_ahead(runnable: Seq<bool>, cursor: int, offset: int, index: int) -> bool {
    runnable[index] && exists|o: int|
        offset <= o < runnable.len() && index == #[trigger] in_turn(
            runnable.len() as int,
            cursor,
            o,
        )
}

/// The order holds each runnable virtual CPU from the `offset`-th place on once.
proof fn lemma_cyclic_order(runnable: Seq<bool>, cursor: int, offset: int)
    requires
        0 <= cursor,
        0 <= offset <= runnable.len(),
    ensures
        ({
            let len = runnable.len() as int;
            let start = cursor % len;
            let order = cyclic_order(runnable, cursor, offset);
            &&& forall|j: int|
                0 <= j < order.len() ==> is_ahead(runnable, cursor, offset, #[trigger] order[j])
            &&& forall|o: int|
                offset <= o < len && runnable[#[trigger] in_turn(len, cursor, o)] ==> order.contains(
                    in_turn(len, cursor, o),
                )
            &&& order.no_duplicates()
            &&& len > 0 ==> order.len() == (if start + offset < len {
                runnable_count(runnable, len) - runnable_count(runnable, start + offset)
                    + runnable_count(runnable, start)
            } else {
                runnable_count(runnable, start) - runnable_count(runnable, start + offset - len)
            })
        }),
    decreases runnable.len() - offset,
{
    let len = runnable.len() as int;
    if offset < len {
        let start = cursor % len;
        let index = in_turn(len, cursor, offset);
        let rest = cyclic_order(runnable, cursor, offset + 1);
        let order = cyclic_order(runnable, cursor, offset);
        lemma_cyclic_order(runnable, cursor, offset + 1);
        lemma_in_turn(len, cursor, start, offset);
        assert(0 <= start < len);
        assert(0 <= index < len);
        if runnable[index] {
            assert(order =~= seq![index] + rest);
            assert forall|j: int| 0 <= j < order.len() implies is_ahead(
                runnable,
                cursor,
                offset,
                #[trigger] order[j],
            ) by {
                if j > 0 {
                    assert(order[j] == rest[j - 1]);
                    assert(is_ahead(runnable, cursor, offset + 1, rest[j - 1]));
                } else {
                    assert(order[0] == in_turn(len, cursor, offset));
                }
            }
            assert forall|o: int|
                offset <= o < len && runnable[#[trigger] in_turn(len, cursor, o)] implies
                order.contains(in_turn(len, cursor, o)) by {
                if o == offset {
                    assert(order[0] == index);
                } else {
                    let j = choose|j: int|
                        0 <= j < rest.len() && rest[j] == in_turn(len, cursor, o);
                    assert(order[j + 1] == rest[j]);
                }
            }
            assert forall|j: int| 0 <= j < rest.len() implies #[trigger] rest[j] != index by {
                assert(is_ahead(runnable, cursor, offset + 1, rest[j]));
                let o = choose|o: int|
                    offset + 1 <= o < len && rest[j] == #[trigger] in_turn(len, cursor, o);
                lemma_in_turn(len, cursor, start, o);
            }
            assert forall|i: int, j: int| 0 <= i < j < order.len() implies order[i] != order[j] by {
                assert(order[j] == rest[j - 1]);
                if i > 0 {
                    assert(order[i] == rest[i - 1]);
                }
            }
            assert(order.no_duplicates());
        } else {
            assert(order == rest);
            assert forall|o: int|
                offset <= o < len && runnable[#[trigger] in_turn(len, cursor, o)] implies
                order.contains(in_turn(len, cursor, o)) by {
                assert(o != offset);
            }
            assert forall|j: int| 0 <= j < order.len() implies is_ahead(
                runnable,
                cursor,
                offset,
                #[trigger] order[j],
            ) by {
                assert(is_ahead(runnable, cursor, offset + 1, rest[j]));
            }
        }
        let place = start + offset;
        if place < len {
            assert(index == place);
            assert(runnable_count(runnable, place + 1) == runnable_count(runnable, place) + (
            if runnable[place] {
                1int
            } else {
                0
            }));
        } else {
            assert(index == place - len);
            assert(runnable_count(runnable, index + 1) == runnable_count(runnable, index) + (
            if runnable[index] {
                1int
            } else {
                0
            }));
        }
    }
}

/// Only the place of the cursor among the virtual CPUs matters.
proof fn lemma_turn_by_place(runnable: Seq<bool>, a: int, b: int, offset: int)
    requires
        0 <= a,
        0 <= b,
        0 <= offset,
        runnable.len() > 0,
        a % (runnable.len() as int) == b % (runnable.len() as int),
    ensures
        turn(runnable, a, offset) == turn(runnable, b, offset),
    decreases runnable.len() - offset,
{
    let len = runnable.len() as int;
    if offset < len {
        lemma_in_turn(len, a, a % len, offset);
        lemma_in_turn(len, b, b % len, offset);
        lemma_turn_by_place(runnable, a, b, offset + 1);
    }
}

/// Where the virtual CPU at the cursor is not runnable, the search may as well begin
/// behind it.
proof fn lemma_skip(runnable: Seq<bool>, cursor: int, next: int, offset: int)
    requires
        runnable.len() > 0,
        0 <= cursor < runnable.len(),
        !runnable[cursor],
        next == (if cursor + 1 < runnable.len() {
            cursor + 1
        } else {
            0
        }),
        0 <= offset < runnable.len(),
    ensures
        turn(runnable, cursor, offset + 1) == turn(runnable, next, offset),
    decreases runnable.len() - offset,
{
    let len = runnable.len() as int;
    vstd::arithmetic::div_mod::lemma_small_mod(cursor as nat, len as nat);
    vstd::arithmetic::div_mod::lemma_small_mod(next as nat, len as nat);
    lemma_in_turn(len, next, next, offset);
    if offset + 1 < len {
        lemma_in_turn(len, cursor, cursor, offset + 1);
        lemma_skip(runnable, cursor, next, offset + 1);
    } else {
        assert(in_turn(len, next, offset) == cursor);
        assert(turn(runnable, next, offset + 1) is None);
        assert(turn(runnable, cursor, offset + 1) is None);
    }
}

proof fn lemma_turns(runnable: Seq<bool>, cursor: int, offset: int, k: int)
    requires
        0 <= cursor,
        0 <= offset <= runnable.len(),
        runnable.len() > 0,
        0 <= k <= cyclic_order(runnable, cursor, offset).len(),
    ensures
        turns(runnable, in_turn(runnable.len() as int, cursor, offset), k) == cyclic_order(
            runnable,
            cursor,
            offset,
        ).take(k),
    decreases runnable.len() - offset,
{
    let len = runnable.len() as int;
    let order = cyclic_order(runnable, cursor, offset);
    let here = in_turn(len, cursor, offset);
    if k == 0 {
        assert(order.take(0) =~= Seq::empty());
    } else {
        assert(offset < len);
        let start = cursor % len;
        lemma_in_turn(len, cursor, start, offset);
        let next = if here + 1 < len {
            here + 1
        } else {
            0
        };
        assert(in_turn(len, cursor, offset + 1) == next) by {
            vstd::arithmetic::div_mod::lemma_add_mod_noop(cursor + offset, 1, len);
            if len > 1 {
                vstd::arithmetic::div_mod::lemma_small_mod(1, len as nat);
            }
            if here + 1 < len {
                vstd::arithmetic::div_mod::lemma_small_mod((here + 1) as nat, len as nat);
            } else {
                vstd::arithmetic::div_mod::lemma_mod_self_0(len);
            }
        }
        let rest = cyclic_order(runnable, cursor, offset + 1);
        vstd::arithmetic::div_mod::lemma_small_mod(here as nat, len as nat);
        lemma_in_turn(len, here, here, 0);
        if runnable[here] {
            assert(turn(runnable, here, 0) == Some(here));
            assert(cursor_after(runnable, here) == next) by {
                if here + 1 < len {
                    vstd::arithmetic::div_mod::lemma_small_mod((here + 1) as nat, len as nat);
                } else {
                    vstd::arithmetic::div_mod::lemma_mod_self_0(len);
                }
            }
            lemma_turns(runnable, cursor, offset + 1, k - 1);
            assert(order.take(k) =~= seq![here] + rest.take(k - 1));
        } else {
            assert(order == rest);
            lemma_turns(runnable, cursor, offset + 1, k);
            assert(turn(runnable, here, 0) == turn(runnable, here, 1));
            lemma_skip(runnable, here, next, 0);
            assert(turns(runnable, next, k).len() == k);
            assert(turn(runnable, next, 0) is Some);
            assert(cursor_after(runnable, here) == cursor_after(runnable, next));
        }
    }
}

/// While the same virtual CPUs are runnable, as many turns as there are of them choose
/// each of them exactly once, in the order of their places round the end. There is no
/// turn exactly where none is runnable, and then the cursor stays.
pub proof fn law_every_runnable_vcpu_gets_its_turn(runnable: Seq<bool>, cursor: int)
    requires
        0 <= cursor,
    ensures
        ({
            let k = runnable_count(runnable, runnable.len() as int);
            let chosen = turns(runnable, cursor, k);
            &&& chosen == cyclic_order(runnable, cursor, 0)
            &&& chosen.len() == k
            &&& chosen.no_duplicates()
            &&& forall|i: int|
                chosen.contains(i) <==> 0 <= i < runnable.len() && #[trigger] runnable[i]
            &&& turn(runnable, cursor, 0) is None <==> k == 0
            &&& k == 0 ==> cursor_after(runnable, cursor) == cursor
        }),
{
    let len = runnable.len() as int;
    let k = runnable_count(runnable, len);
    let order = cyclic_order(runnable, cursor, 0);
    lemma_cyclic_order(runnable, cursor, 0);
    if len == 0 {
        assert(turns(runnable, cursor, k) =~= Seq::empty());
    } else {
        let start = cursor % len;
        assert(0 <= start < len);
        lemma_count_is_bounded(runnable, 0, len);
        assert(order.len() == k);
        lemma_turns(runnable, cursor, 0, k);
        lemma_in_turn(len, cursor, start, 0);
        assert(order.take(k) =~= order);
        vstd::arithmetic::div_mod::lemma_small_mod(start as nat, len as nat);
        lemma_turn_by_place(runnable, cursor, start, 0);
        assert(turns(runnable, cursor, k) =~= turns(runnable, start, k)) by {
            if k > 0 {
                assert(turns(runnable, start, k).len() == k);
                assert(turn(runnable, start, 0) is Some);
                assert(cursor_after(runnable, cursor) == cursor_after(runnable, start));
            }
        }
        assert forall|i: int| order.contains(i) <==> 0 <= i < len && #[trigger] runnable[i] by {
            if order.contains(i) {
                let j = choose|j: int| 0 <= j < order.len() && order[j] == i;
                assert(is_ahead(runnable, cursor, 0, order[j]));
                let o = choose|o: int|
                    0 <= o < len && order[j] == #[trigger] in_turn(len, cursor, o);
                lemma_in_turn(len, cursor, start, o);
            }
            if 0 <= i < len && runnable[i] {
                let o = if i >= start {
                    i - start
                } else {
                    i - start + len
                };
                lemma_in_turn(len, cursor, start, o);
                assert(in_turn(len, cursor, o) == i);
            }
        }
        if turn(runnable, cursor, 0) is Some {
            lemma_turn_is_runnable(runnable, cursor, 0);
            assert(order.contains(turn(runnable, cursor, 0)->0));
        }
        if k > 0 {
            assert(turns(runnable, cursor, k).len() == k);
        }
    }
}

/// What a series of calls chooses while the same virtual CPUs are runnable.
proof fn lemma_calls(
    runnable: Seq<bool>,
    states: Seq<CooperativeScheduler>,
    results: Seq<Option<usize>>,
)
    requires
        runnable.len() <= usize::MAX,
        states.len() == results.len() + 1,
        forall|j: int|
            0 <= j < results.len() ==> takes_turn(
                states[j],
                runnable,
                #[trigger] results[j],
                states[j + 1],
            ),
        turns(runnable, states[0].cursor as int, results.len() as int).len() == results.len(),
    ensures
        ({
            let chosen = turns(runnable, states[0].cursor as int, results.len() as int);
            &&& forall|j: int|
                0 <= j < results.len() ==> 0 <= #[trigger] chosen[j] < runnable.len()
            &&& forall|j: int|
                0 <= j < results.len() ==> #[trigger] results[j] == Some(chosen[j] as usize)
        }),
    decreases results.len(),
{
    if results.len() > 0 {
        let cursor = states[0].cursor as int;
        let k = results.len() as int;
        assert(takes_turn(states[0], runnable, results[0], states[1]));
        let index = turn(runnable, cursor, 0)->0;
        lemma_turn_is_runnable(runnable, cursor, 0);
        assert(0 <= index < runnable.len());
        assert(0 <= cursor_after(runnable, cursor) < runnable.len()) by {
            vstd::arithmetic::div_mod::lemma_mod_bound(index + 1, runnable.len() as int);
        }
        let rest = turns(runnable, states[1].cursor as int, k - 1);
        let chosen = turns(runnable, cursor, k);
        assert(chosen == seq![index] + rest);
        let later = results.drop_first();
        let after = states.drop_first();
        assert forall|j: int| 0 <= j < later.len() implies takes_turn(
            after[j],
            runnable,
            #[trigger] later[j],
            after[j + 1],
        ) by {
            assert(later[j] == results[j + 1]);
        }
        lemma_calls(runnable, after, later);
        assert forall|j: int| 0 <= j < results.len() implies 0 <= #[trigger] chosen[j]
            < runnable.len() by {
            if j > 0 {
                assert(chosen[j] == rest[j - 1]);
            }
        }
        assert forall|j: int| 0 <= j < results.len() implies #[trigger] results[j] == Some(
            chosen[j] as usize,
        ) by {
            if j > 0 {
                assert(later[j - 1] == results[j]);
            }
        }
    }
}

/// As many calls in a row as there are runnable virtual CPUs, with the same ones
/// runnable, return each of them exactly once, in the order of their places round the
/// end.
pub proof fn law_calls_return_every_runnable_vcpu(
    runnable: Seq<bool>,
    states: Seq<CooperativeScheduler>,
    results: Seq<Option<usize>>,
)
    requires
        runnable.len() <= usize::MAX,
        results.len() == runnable_count(runnable, runnable.len() as int),
        states.len() == results.len() + 1,
        forall|j: int|
            0 <= j < results.len() ==> takes_turn(
                states[j],
                runnable,
                #[trigger] results[j],
                states[j + 1],
            ),
    ensures
        ({
            let order = cyclic_order(runnable, states[0].cursor as int, 0);
            &&& order.len() == results.len()
            &&& forall|j: int|
                0 <= j < results.len() ==> #[trigger] results[j] == Some(order[j] as usize)
        }),
        results.no_duplicates(),
        forall|i: usize|
            #[trigger] results.contains(Some(i)) <==> i < runnable.len() && runnable[i as int],
        !results.contains(None),
{
    let cursor = states[0].cursor as int;
    law_every_runnable_vcpu_gets_its_turn(runnable, cursor);
    lemma_calls(runnable, states, results);
    let order = cyclic_order(runnable, cursor, 0);
    assert forall|j: int, l: int|
        0 <= j < results.len() && 0 <= l < results.len() && j != l implies results[j]
        != results[l] by {
        assert(order[j] != order[l]);
    }
    assert forall|i: usize| #[trigger] results.contains(Some(i)) <==> i < runnable.len()
        && runnable[i as int] by {
        if results.contains(Some(i)) {
            let j = choose|j: int| 0 <= j < results.len() && results[j] == Some(i);
            assert(order[j] == i);
            assert(order.contains(i as int));
        }
        if i < runnable.len() && runnable[i as int] {
            assert(order.contains(i as int));
            let j = choose|j: int| 0 <= j < order.len() && order[j] == i;
            assert(results[j] == Some(i));
        }
    }
    if results.contains(None) {
        let j = choose|j: int| 0 <= j < results.len() && results[j] == None::<usize>;
        assert(results[j] == Some(order[j] as usize));
    }
}

proof fn lemma_turn_is_runnable(runnable: Seq<bool>, cursor: int, offset: int)
    requires
        0 <= cursor,
        0 <= offset,
        turn(runnable, cursor, offset) is Some,
    ensures
        0 <= turn(runnable, cursor, offset)->0 < runnable.len(),
        runnable[turn(runnable, cursor, offset)->0],
    decreases runnable.len() - offset,
{
    let len = runnable.len() as int;
    lemma_in_turn(len, cursor, cursor % len, offset);
    if !runnable[in_turn(len, cursor, offset)] {
        lemma_turn_is_runnable(runnable, cursor, offset + 1);
    }
}

/// A virtual CPU that was emulated goes on exactly while it is runnable and less than the
/// budget has passed since its slice began, and its slice keeps its beginning, however
/// often it is emulated. Else a slice begins now, for the next virtual CPU in turn. Either
/// way what was to go on is forgotten.
pub proof fn law_emulation_never_renews_the_slice(
    before: CooperativeScheduler,
    runnable: Seq<bool>,
    now: u64,
    budget: u64,
    r: Option<usize>,
    after: CooperativeScheduler,
    passed: int,
)
    requires
        takes_slice(before, runnable, now, budget, r, after),
        0 <= passed <= u64::MAX,
        (before.slice_start + passed) % 0x1_0000_0000_0000_0000 == now,
    ensures
        after.resume is None,
        ({
            let goes_on = before.resume matches Some(i) && i < runnable.len() && runnable[i as int]
                && passed < budget;
            &&& goes_on ==> {
                &&& r == before.resume
                &&& after.slice_start == before.slice_start
                &&& after.cursor == before.cursor
            }
            &&& !goes_on ==> {
                &&& after.slice_start == now
                &&& takes_turn(
                    before,
                    runnable,
                    r,
                    CooperativeScheduler {
                        resume: before.resume,
                        slice_start: before.slice_start,
                        ..after
                    },
                )
            }
        }),
{
}

} // verus!
