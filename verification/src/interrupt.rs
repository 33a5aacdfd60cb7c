//! The interrupt controller of a virtual CPU.
//!
//! It has the registers that its guests use, and no others; what they hold at the start
//! is chosen here.

use vstd::prelude::*;

verus! {

pub const FIRST_VECTOR: u8 = 16;

pub const IA32_TSC_DEADLINE: u32 = 0x6e0;
pub const X2APIC_ID: u32 = 0x802;
pub const X2APIC_VERSION: u32 = 0x803;
pub const X2APIC_TPR: u32 = 0x808;
pub const X2APIC_EOI: u32 = 0x80b;
pub const X2APIC_SIVR: u32 = 0x80f;
pub const X2APIC_LVT_TIMER: u32 = 0x832;
/// Version 0x14 with six local vectors.
pub const APIC_VERSION: u64 = 0x5_0014;
/// The bits of a local timer entry that are kept: vector, mask and mode.
pub const LVT_TIMER_BITS: u64 = 0x7_00ff;
pub const LVT_MASKED: u64 = 0x1_0000;
pub const LVT_TSC_DEADLINE: u64 = 0x4_0000;
pub const SIVR_BITS: u64 = 0x1ff;

#[derive(Clone, Copy, Debug, PartialEq, Eq, Structural)]
pub enum InterruptError {
    InvalidVector,
    NotPending,
    NotInService,
    UnknownRegister,
}

/// The local interrupt controller of one virtual CPU. A guest that knows of it uses
/// its registers; another one uses hypercalls.
pub struct VirtualLocalApic {
    pending: Vec<bool>,
    in_service: Vec<bool>,
    masked: Vec<bool>,
    task_priority: u8,
    x2apic: bool,
    spurious: u64,
    timer: u64,
    deadline: u64,
}

#[verifier::ext_equal]
pub struct ApicView {
    /// Vectors that wait to be taken.
    pub pending: Seq<bool>,
    /// Vectors that were taken and not ended.
    pub in_service: Seq<bool>,
    /// Vectors that are held back.
    pub masked: Seq<bool>,
    pub task_priority: u8,
    /// The guest sees registers.
    pub x2apic: bool,
    pub spurious: u64,
    /// The local entry of the timer.
    pub timer: u64,
    /// When the timer fires, or zero.
    pub deadline: u64,
}

impl View for VirtualLocalApic {
    type V = ApicView;

    closed spec fn view(&self) -> ApicView {
        ApicView {
            pending: self.pending@,
            in_service: self.in_service@,
            masked: self.masked@,
            task_priority: self.task_priority,
            x2apic: self.x2apic,
            spurious: self.spurious,
            timer: self.timer,
            deadline: self.deadline,
        }
    }
}

/// The highest of the first `n` vectors that is set, or -1.
pub open spec fn highest(s: Seq<bool>, n: int) -> int
    decreases n,
{
    if n <= 0 {
        -1
    } else if s[n - 1] {
        n - 1
    } else {
        highest(s, n - 1)
    }
}

/// The highest of the first `n` vectors that waits and is not held back, or -1.
pub open spec fn highest_open(v: ApicView, n: int) -> int
    decreases n,
{
    if n <= 0 {
        -1
    } else if v.pending[n - 1] && !v.masked[n - 1] {
        n - 1
    } else {
        highest_open(v, n - 1)
    }
}

/// The class that a vector must be above to be taken now.
pub open spec fn priority_class(v: ApicView) -> int {
    let serving = highest(v.in_service, 256);
    let task = v.task_priority as int / 16;
    if serving >= 0 && serving / 16 > task {
        serving / 16
    } else {
        task
    }
}

/// The vector that the virtual CPU takes next.
pub open spec fn next_vector(v: ApicView) -> Option<u8> {
    let vector = highest_open(v, 256);
    if vector >= 0 && vector / 16 > priority_class(v) {
        Some(vector as u8)
    } else {
        None
    }
}

pub open spec fn raised(v: ApicView, vector: u8) -> ApicView {
    ApicView { pending: v.pending.update(vector as int, true), ..v }
}

/// The controller once the time is `now`: a timer that is due fires once.
pub open spec fn ticked(v: ApicView, now: u64) -> ApicView {
    let vector = (v.timer % 0x100) as u8;
    if v.deadline == 0 || now < v.deadline {
        v
    } else if v.timer & LVT_MASKED != 0 || vector < FIRST_VECTOR {
        ApicView { deadline: 0, ..v }
    } else {
        ApicView { deadline: 0, ..raised(v, vector) }
    }
}

/// The controller with the interrupt that is served first ended.
pub open spec fn ended_first(v: ApicView) -> ApicView {
    ApicView { in_service: v.in_service.update(highest(v.in_service, 256), false), ..v }
}

proof fn lemma_highest(s: Seq<bool>, n: int)
    requires
        0 <= n <= s.len(),
    ensures
        -1 <= highest(s, n) < n,
        highest(s, n) >= 0 ==> s[highest(s, n)],
        forall|i: int| highest(s, n) < i < n ==> !#[trigger] s[i],
    decreases n,
{
    if n > 0 && !s[n - 1] {
        lemma_highest(s, n - 1);
    }
}

proof fn lemma_highest_open(v: ApicView, n: int)
    requires
        0 <= n <= v.pending.len(),
    ensures
        -1 <= highest_open(v, n) < n,
        highest_open(v, n) >= 0 ==> v.pending[highest_open(v, n)] && !v.masked[highest_open(v, n)],
        forall|i: int|
            highest_open(v, n) < i < n ==> !(#[trigger] v.pending[i]) || v.masked[i],
    decreases n,
{
    if n > 0 && !(v.pending[n - 1] && !v.masked[n - 1]) {
        lemma_highest_open(v, n - 1);
    }
}

fn no_vectors() -> (r: Vec<bool>)
    ensures
        r@.len() == 256,
        forall|i: int| 0 <= i < 256 ==> !#[trigger] r@[i],
{
    let mut out: Vec<bool> = Vec::new();
    while out.len() < 256
        invariant
            out@.len() <= 256,
            forall|i: int| 0 <= i < out@.len() ==> !#[trigger] out@[i],
        decreases 256 - out@.len(),
    {
        out.push(false);
    }
    out
}

pub open spec fn is_idle(v: ApicView, x2apic: bool) -> bool {
    &&& forall|i: int| 0 <= i < 256 ==> !#[trigger] v.pending[i]
    &&& forall|i: int| 0 <= i < 256 ==> !#[trigger] v.in_service[i]
    &&& forall|i: int| 0 <= i < 256 ==> !#[trigger] v.masked[i]
    &&& v.task_priority == 0
    &&& v.x2apic == x2apic
    &&& v.spurious == 0xff
    &&& v.timer == LVT_MASKED
    &&& v.deadline == 0
}

impl VirtualLocalApic {
    pub open spec fn wf(self) -> bool {
        &&& self@.pending.len() == 256
        &&& self@.in_service.len() == 256
        &&& self@.masked.len() == 256
    }

    /// A controller that the guest drives by hypercalls.
    pub fn new() -> (r: Self)
        ensures
            r.wf(),
            is_idle(r@, false),
    {
        VirtualLocalApic {
            pending: no_vectors(),
            in_service: no_vectors(),
            masked: no_vectors(),
            task_priority: 0,
            x2apic: false,
            spurious: 0xff,
            timer: LVT_MASKED,
            deadline: 0,
        }
    }

    /// A controller whose registers the guest sees.
    pub fn new_x2apic() -> (r: Self)
        ensures
            r.wf(),
            is_idle(r@, true),
    {
        VirtualLocalApic {
            pending: no_vectors(),
            in_service: no_vectors(),
            masked: no_vectors(),
            task_priority: 0,
            x2apic: true,
            spurious: 0xff,
            timer: LVT_MASKED,
            deadline: 0,
        }
    }

    /// An interrupt waits from now on.
    pub fn raise(&mut self, vector: u8) -> (r: Result<(), InterruptError>)
        requires
            old(self).wf(),
        ensures
            final(self).wf(),
            if vector < FIRST_VECTOR {
                r == Err::<(), InterruptError>(InterruptError::InvalidVector) && final(self)@
                    == old(self)@
            } else {
                r == Ok::<(), InterruptError>(()) && final(self)@ == raised(old(self)@, vector)
            },
    {
        if vector < FIRST_VECTOR {
            return Err(InterruptError::InvalidVector);
        }
        self.pending.set(vector as usize, true);
        Ok(())
    }

    /// The interrupt does not wait any more. Gives whether it did.
    pub fn cancel_pending(&mut self, vector: u8) -> (r: bool)
        requires
            old(self).wf(),
        ensures
            final(self).wf(),
            r == old(self)@.pending[vector as int],
            final(self)@ == (ApicView {
                pending: old(self)@.pending.update(vector as int, false),
                ..old(self)@
            }),
    {
        let was = self.pending[vector as usize];
        self.pending.set(vector as usize, false);
        was
    }

    fn highest_in_service(&self) -> (r: Option<u8>)
        requires
            self.wf(),
        ensures
            match r {
                Some(vector) => vector == highest(self@.in_service, 256),
                None => highest(self@.in_service, 256) == -1,
            },
    {
        let mut n: usize = 256;
        while n > 0
            invariant
                n <= 256,
                self.wf(),
                self.in_service@ == self@.in_service,
                highest(self@.in_service, 256) == highest(self@.in_service, n as int),
            decreases n,
        {
            if self.in_service[n - 1] {
                return Some((n - 1) as u8);
            }
            n -= 1;
        }
        None
    }

    /// The interrupt that the virtual CPU takes next: the highest that waits and is
    /// not held back, above the task's priority and above what is being served.
    pub fn next_pending(&self) -> (r: Option<u8>)
        requires
            self.wf(),
        ensures
            r == next_vector(self@),
    {
        let task: u8 = self.task_priority / 16;
        let class: u8 = match self.highest_in_service() {
            Some(serving) => if serving / 16 > task {
                serving / 16
            } else {
                task
            },
            None => task,
        };
        proof {
            lemma_highest(self@.in_service, 256);
        }
        assert(class == priority_class(self@));
        let mut n: usize = 256;
        while n > 0
            invariant
                n <= 256,
                self.wf(),
                self.pending@ == self@.pending,
                self.masked@ == self@.masked,
                class == priority_class(self@),
                highest_open(self@, 256) == highest_open(self@, n as int),
            decreases n,
        {
            if self.pending[n - 1] && !self.masked[n - 1] {
                let vector: u8 = (n - 1) as u8;
                return if vector / 16 > class {
                    Some(vector)
                } else {
                    None
                };
            }
            n -= 1;
        }
        None
    }

    /// The virtual CPU takes an interrupt that waits.
    pub fn accept(&mut self, vector: u8) -> (r: Result<(), InterruptError>)
        requires
            old(self).wf(),
        ensures
            final(self).wf(),
            if !old(self)@.pending[vector as int] {
                r == Err::<(), InterruptError>(InterruptError::NotPending) && final(self)@ == old(
                    self,
                )@
            } else {
                r == Ok::<(), InterruptError>(()) && final(self)@ == (ApicView {
                    pending: old(self)@.pending.update(vector as int, false),
                    in_service: old(self)@.in_service.update(vector as int, true),
                    ..old(self)@
                })
            },
    {
        if !self.pending[vector as usize] {
            return Err(InterruptError::NotPending);
        }
        self.pending.set(vector as usize, false);
        self.in_service.set(vector as usize, true);
        Ok(())
    }

    /// The guest has served the highest interrupt.
    pub fn eoi(&mut self) -> (r: Result<u8, InterruptError>)
        requires
            old(self).wf(),
        ensures
            final(self).wf(),
            if highest(old(self)@.in_service, 256) < 0 {
                r == Err::<u8, InterruptError>(InterruptError::NotInService) && final(self)@
                    == old(self)@
            } else {
                &&& r == Ok::<u8, InterruptError>(highest(old(self)@.in_service, 256) as u8)
                &&& final(self)@ == ended_first(old(self)@)
            },
    {
        match self.highest_in_service() {
            None => Err(InterruptError::NotInService),
            Some(vector) => {
                self.in_service.set(vector as usize, false);
                Ok(vector)
            },
        }
    }

    /// Holds a vector back, or lets it through again.
    pub fn set_masked(&mut self, vector: u8, masked: bool) -> (r: Result<(), InterruptError>)
        requires
            old(self).wf(),
        ensures
            final(self).wf(),
            if vector < FIRST_VECTOR {
                r == Err::<(), InterruptError>(InterruptError::InvalidVector) && final(self)@
                    == old(self)@
            } else {
                r == Ok::<(), InterruptError>(()) && final(self)@ == (ApicView {
                    masked: old(self)@.masked.update(vector as int, masked),
                    ..old(self)@
                })
            },
    {
        if vector < FIRST_VECTOR {
            return Err(InterruptError::InvalidVector);
        }
        self.masked.set(vector as usize, masked);
        Ok(())
    }

    pub fn set_task_priority(&mut self, priority: u8)
        requires
            old(self).wf(),
        ensures
            final(self).wf(),
            final(self)@ == (ApicView { task_priority: priority, ..old(self)@ }),
    {
        self.task_priority = priority;
    }

    /// The time is `now`: a timer that is due fires.
    pub fn update_timer(&mut self, now: u64)
        requires
            old(self).wf(),
        ensures
            final(self).wf(),
            final(self)@ == ticked(old(self)@, now),
    {
        if self.deadline == 0 || now < self.deadline {
            return;
        }
        self.deadline = 0;
        let vector: u8 = (self.timer % 0x100) as u8;
        if self.timer & LVT_MASKED == 0 && vector >= FIRST_VECTOR {
            self.pending.set(vector as usize, true);
        }
    }

    /// What the guest reads from a register of the controller.
    pub fn read_msr(&self, msr: u32) -> (r: Result<u64, InterruptError>)
        ensures
            r == register_value(self@, msr),
    {
        if !self.x2apic {
            return Err(InterruptError::UnknownRegister);
        }
        if msr == X2APIC_ID {
            Ok(0)
        } else if msr == X2APIC_VERSION {
            Ok(APIC_VERSION)
        } else if msr == X2APIC_TPR {
            Ok(self.task_priority as u64)
        } else if msr == X2APIC_SIVR {
            Ok(self.spurious)
        } else if msr == X2APIC_LVT_TIMER {
            Ok(self.timer)
        } else if msr == IA32_TSC_DEADLINE {
            Ok(self.deadline)
        } else {
            Err(InterruptError::UnknownRegister)
        }
    }

    /// The guest writes a register of the controller.
    pub fn write_msr(&mut self, msr: u32, word: u64) -> (r: Result<(), InterruptError>)
        requires
            old(self).wf(),
        ensures
            final(self).wf(),
            match register_written(old(self)@, msr, word) {
                Some(after) => r == Ok::<(), InterruptError>(()) && final(self)@ == after,
                None => r == Err::<(), InterruptError>(InterruptError::UnknownRegister)
                    && final(self)@ == old(self)@,
            },
    {
        if !self.x2apic {
            return Err(InterruptError::UnknownRegister);
        }
        if msr == X2APIC_TPR && word <= 0xff {
            self.task_priority = word as u8;
        } else if msr == X2APIC_EOI && word == 0 {
            if let Some(vector) = self.highest_in_service() {
                self.in_service.set(vector as usize, false);
            }
        } else if msr == X2APIC_SIVR && word & !SIVR_BITS == 0 {
            self.spurious = word;
        } else if msr == X2APIC_LVT_TIMER && word & !LVT_TIMER_BITS == 0 {
            self.timer = word;
        } else if msr == IA32_TSC_DEADLINE {
            if self.timer & LVT_TSC_DEADLINE != 0 {
                self.deadline = word;
            }
        } else {
            return Err(InterruptError::UnknownRegister);
        }
        Ok(())
    }
}

/// What the guest reads from a register.
pub open spec fn register_value(v: ApicView, msr: u32) -> Result<u64, InterruptError> {
    if !v.x2apic {
        Err(InterruptError::UnknownRegister)
    } else if msr == X2APIC_ID {
        Ok(0)
    } else if msr == X2APIC_VERSION {
        Ok(APIC_VERSION)
    } else if msr == X2APIC_TPR {
        Ok(v.task_priority as u64)
    } else if msr == X2APIC_SIVR {
        Ok(v.spurious)
    } else if msr == X2APIC_LVT_TIMER {
        Ok(v.timer)
    } else if msr == IA32_TSC_DEADLINE {
        Ok(v.deadline)
    } else {
        Err(InterruptError::UnknownRegister)
    }
}

/// The controller after a register was written, if it may be. A deadline counts
/// only where the timer's entry asks for one.
pub open spec fn register_written(v: ApicView, msr: u32, word: u64) -> Option<ApicView> {
    if !v.x2apic {
        None
    } else if msr == X2APIC_TPR && word <= 0xff {
        Some(ApicView { task_priority: word as u8, ..v })
    } else if msr == X2APIC_EOI && word == 0 {
        Some(
            if highest(v.in_service, 256) >= 0 {
                ended_first(v)
            } else {
                v
            },
        )
    } else if msr == X2APIC_SIVR && word & !SIVR_BITS == 0 {
        Some(ApicView { spurious: word, ..v })
    } else if msr == X2APIC_LVT_TIMER && word & !LVT_TIMER_BITS == 0 {
        Some(ApicView { timer: word, ..v })
    } else if msr == IA32_TSC_DEADLINE {
        Some(
            if v.timer & LVT_TSC_DEADLINE != 0 {
                ApicView { deadline: word, ..v }
            } else {
                v
            },
        )
    } else {
        None
    }
}

/// What is taken next waits, is not held back, and is above every interrupt that is
/// being served.
pub proof fn law_only_higher_interrupts_nest(v: ApicView, vector: u8, serving: int)
    requires
        v.pending.len() == 256,
        v.in_service.len() == 256,
        next_vector(v) == Some(vector),
        0 <= serving < 256,
        v.in_service[serving],
    ensures
        v.pending[vector as int],
        !v.masked[vector as int],
        vector > serving,
{
    lemma_highest_open(v, 256);
    lemma_highest(v.in_service, 256);
}

/// With nothing served and the task at its lowest priority, an interrupt that is
/// raised and not held back is never lost: something at least as high is taken next.
pub proof fn law_raised_interrupt_is_taken(v: ApicView, vector: u8)
    requires
        v.pending.len() == 256,
        v.in_service.len() == 256,
        v.masked.len() == 256,
        vector >= FIRST_VECTOR,
        !v.masked[vector as int],
        v.task_priority < 16,
        highest(v.in_service, 256) < 0,
    ensures
        next_vector(raised(v, vector)) matches Some(taken) && taken >= vector,
{
    lemma_highest_open(raised(v, vector), 256);
    assert(raised(v, vector).pending[vector as int]);
}

/// Whether an interrupt could be taken now: it waits, is not held back, and its class
/// (sixteen vectors each) is above that of the task and of everything that is served.
pub open spec fn is_deliverable(v: ApicView, vector: int) -> bool {
    &&& v.pending[vector]
    &&& !v.masked[vector]
    &&& vector / 16 > v.task_priority as int / 16
    &&& forall|s: int| 0 <= s < 256 && #[trigger] v.in_service[s] ==> vector / 16 > s / 16
}

/// The interrupt that is taken next is the highest that could be taken; none is exactly
/// where none could.
pub proof fn law_highest_deliverable_interrupt_is_next(v: ApicView)
    requires
        v.pending.len() == 256,
        v.in_service.len() == 256,
        v.masked.len() == 256,
    ensures
        next_vector(v) matches Some(vector) ==> is_deliverable(v, vector as int),
        forall|x: int|
            0 <= x < 256 && #[trigger] is_deliverable(v, x) ==> (next_vector(v) matches Some(vector)
                && vector >= x),
{
    lemma_highest_open(v, 256);
    lemma_highest(v.in_service, 256);
    let top = highest_open(v, 256);
    let serving = highest(v.in_service, 256);
    if next_vector(v) is Some {
        assert forall|s: int| 0 <= s < 256 && #[trigger] v.in_service[s] implies top / 16 > s
            / 16 by {
            assert(s <= serving);
        }
    }
    assert forall|x: int| 0 <= x < 256 && #[trigger] is_deliverable(v, x) implies (
    next_vector(v) matches Some(vector) && vector >= x) by {
        assert(v.pending[x]);
        assert(x <= top);
        if serving >= 0 {
            assert(v.in_service[serving]);
        }
    }
}

/// A timer whose deadline has come is spent, and its vector (the low eight bits of its
/// entry) waits, unless the entry is masked (bit 16) or the vector is one of the first
/// sixteen; one whose deadline lies ahead, or that has none, changes nothing.
pub proof fn law_timer_fires_once_at_its_deadline(v: ApicView, now: u64, later: u64)
    requires
        v.pending.len() == 256,
    ensures
        v.deadline == 0 || now < v.deadline ==> ticked(v, now) == v,
        v.deadline != 0 && now >= v.deadline ==> {
            let after = ticked(v, now);
            &&& after.deadline == 0
            &&& ticked(after, later) == after
            &&& forall|x: int|
                0 <= x < 256 ==> #[trigger] after.pending[x] == (v.pending[x] || x == v.timer % 0x100
                    && x >= 16 && v.timer & 0x1_0000 == 0)
            &&& after.in_service == v.in_service && after.masked == v.masked && after.timer
                == v.timer && after.task_priority == v.task_priority
        },
{
}

/// What the guest writes to its priority, its spurious vector and its timer entry it
/// reads back; a deadline it reads back where the timer entry has bit 18. Its identity is
/// zero, and the version is 0x14 with six local vectors.
pub proof fn law_registers_read_back(v: ApicView, word: u64)
    requires
        v.x2apic,
    ensures
        register_value(v, 0x802) == Ok::<u64, InterruptError>(0),
        register_value(v, 0x803) == Ok::<u64, InterruptError>(0x5_0014),
        word <= 0xff ==> (register_written(v, 0x808, word) matches Some(after) && register_value(
            after,
            0x808,
        ) == Ok::<u64, InterruptError>(word) && after == (ApicView {
            task_priority: word as u8,
            ..v
        })),
        word > 0xff ==> register_written(v, 0x808, word) is None,
        word & !0x1ffu64 == 0 ==> (register_written(v, 0x80f, word) matches Some(after)
            && register_value(after, 0x80f) == Ok::<u64, InterruptError>(word) && after == (
        ApicView { spurious: word, ..v })),
        word & !0x7_00ffu64 == 0 ==> (register_written(v, 0x832, word) matches Some(after)
            && register_value(after, 0x832) == Ok::<u64, InterruptError>(word) && after == (
        ApicView { timer: word, ..v })),
        v.timer & 0x4_0000 != 0 ==> (register_written(v, 0x6e0, word) matches Some(after)
            && register_value(after, 0x6e0) == Ok::<u64, InterruptError>(word) && after == (
        ApicView { deadline: word, ..v })),
        v.timer & 0x4_0000 == 0 ==> register_written(v, 0x6e0, word) == Some(v),
{
}

/// A guest that does not use the controller's registers reads and writes none of them,
/// and neither does any other guest with a register that the controller lacks.
pub proof fn law_other_registers_are_unknown(v: ApicView, msr: u32, word: u64)
    requires
        !v.x2apic || msr != 0x802 && msr != 0x803 && msr != 0x808 && msr != 0x80b && msr != 0x80f
            && msr != 0x832 && msr != 0x6e0,
    ensures
        register_value(v, msr) == Err::<u64, InterruptError>(InterruptError::UnknownRegister),
        register_written(v, msr, word) is None,
{
}

/// Ending an interrupt, by a zero to its register, ends the highest that is served and
/// nothing else; where none is served it changes nothing.
pub proof fn law_end_of_interrupt_ends_the_highest(v: ApicView)
    requires
        v.x2apic,
        v.in_service.len() == 256,
    ensures
        register_written(v, 0x80b, 0) matches Some(after) && {
            &&& after.pending == v.pending && after.masked == v.masked && after.task_priority
                == v.task_priority && after.timer == v.timer && after.deadline == v.deadline
            &&& (forall|x: int| 0 <= x < 256 ==> !#[trigger] v.in_service[x]) ==> after == v
            &&& forall|x: int|
                0 <= x < 256 ==> #[trigger] after.in_service[x] == (v.in_service[x] && exists|y: int|
                    x < y < 256 && #[trigger] v.in_service[y])
        },
        register_written(v, 0x80b, 1) is None,
{
    lemma_highest(v.in_service, 256);
    let top = highest(v.in_service, 256);
    let after = register_written(v, 0x80b, 0)->0;
    assert forall|x: int| 0 <= x < 256 implies #[trigger] after.in_service[x] == (v.in_service[x]
        && exists|y: int| x < y < 256 && #[trigger] v.in_service[y]) by {
        if v.in_service[x] && x < top {
            assert(v.in_service[top]);
        }
    }
}

} // verus!
