//! Hardware watchdogs retained by mBoot.
//!
//! A watchdog owned by a guest cannot detect a stalled hypervisor. mBoot
//! therefore programs the device itself and reloads it only after a heartbeat
//! from the System Domain.

use vstd::prelude::*;

use crate::pci::PciFunction;

verus! {

pub const INTEL_VENDOR_ID: u16 = 0x8086;

pub const INTEL_6300ESB_WATCHDOG_ID: u16 = 0x25ab;

pub const PCI_COMMAND_MEMORY: u32 = 2;

pub const PCI_BAR_MEMORY_MASK: u32 = 0xffff_fff0;

pub const BAR_REGISTER: u16 = 0x10;

pub const COMMAND_REGISTER: u16 = 0x04;

pub const ESB_CONFIG_REGISTER: u16 = 0x60;

pub const ESB_LOCK_REGISTER: u16 = 0x68;

pub const ESB_TIMER1_OFFSET: u64 = 0x00;

pub const ESB_TIMER2_OFFSET: u64 = 0x04;

pub const ESB_RELOAD_OFFSET: u64 = 0x0c;

pub const ESB_WATCHDOG_ENABLE: u8 = 2;

pub const ESB_WATCHDOG_LOCK: u8 = 1;

pub const ESB_RELOAD: u16 = 0x100;

pub const ESB_TIMED_OUT: u16 = 0x200;

pub const ESB_UNLOCK1: u16 = 0x80;

pub const ESB_UNLOCK2: u16 = 0x86;

pub const ESB_MIN_TIMEOUT_SECONDS: u16 = 1;

pub const ESB_MAX_TIMEOUT_SECONDS: u16 = 2046;

#[derive(Clone, Copy, Debug, PartialEq, Eq, Structural)]
pub enum Error {
    InvalidTimeout,
    InvalidBar,
    PciAccess,
    RegisterWriteFailed,
}

/// A write to the watchdog's configuration space or to its registers.
#[derive(Clone, Copy, Debug, PartialEq, Eq, Structural)]
pub enum WatchdogWrite {
    Config8 { register: u16, byte: u8 },
    Config16 { register: u16, half: u16 },
    Config32 { register: u16, word: u32 },
    Memory16 { offset: u64, half: u16 },
    Memory32 { offset: u64, word: u32 },
}

/// A value that is read from the watchdog's configuration space next.
#[derive(Clone, Copy, Debug, PartialEq, Eq, Structural)]
pub enum WatchdogStep {
    /// The 32-bit window register.
    Window,
    /// The 32-bit command register.
    Command { registers: u64 },
    /// The 8-bit lock register, before the watchdog runs.
    Lock { registers: u64 },
    /// The 8-bit lock register, once the watchdog should run.
    Installed { registers: u64 },
    /// The watchdog runs.
    Running { registers: u64 },
}

/// A watchdog that runs.
#[derive(Clone, Copy, Debug, PartialEq, Eq, Structural)]
pub struct HardwareWatchdog {
    pub registers: u64,
}

pub open spec fn is_watchdog(function: PciFunction) -> bool {
    function.vendor == INTEL_VENDOR_ID && function.device == INTEL_6300ESB_WATCHDOG_ID
}

/// The first watchdog from `i` on.
pub open spec fn find_watchdog(functions: Seq<PciFunction>, i: int) -> Option<u16>
    decreases functions.len() - i,
{
    if i < 0 || i >= functions.len() {
        None
    } else if is_watchdog(functions[i]) {
        Some(functions[i].requester)
    } else {
        find_watchdog(functions, i + 1)
    }
}

/// The two writes that let the next write through.
pub open spec fn unlock_writes() -> Seq<WatchdogWrite> {
    seq![
        WatchdogWrite::Memory16 { offset: ESB_RELOAD_OFFSET, half: ESB_UNLOCK1 },
        WatchdogWrite::Memory16 { offset: ESB_RELOAD_OFFSET, half: ESB_UNLOCK2 },
    ]
}

/// The writes that start the countdown: both stages get the whole timeout.
pub open spec fn start_writes(timeout_seconds: u16) -> Seq<WatchdogWrite> {
    let timer = (timeout_seconds as int * 0x200) as u32;
    seq![WatchdogWrite::Config8 { register: ESB_LOCK_REGISTER, byte: 0 }] + unlock_writes().push(
        WatchdogWrite::Memory16 { offset: ESB_RELOAD_OFFSET, half: ESB_TIMED_OUT | ESB_RELOAD },
    ) + unlock_writes().push(
        WatchdogWrite::Memory32 { offset: ESB_TIMER1_OFFSET, word: timer },
    ) + unlock_writes().push(
        WatchdogWrite::Memory32 { offset: ESB_TIMER2_OFFSET, word: timer },
    ) + unlock_writes().push(
        WatchdogWrite::Memory16 { offset: ESB_RELOAD_OFFSET, half: ESB_RELOAD },
    ).push(WatchdogWrite::Config8 { register: ESB_LOCK_REGISTER, byte: ESB_WATCHDOG_ENABLE })
}

/// What follows from a value: the writes that come next and the step behind them.
pub open spec fn continued(
    step: WatchdogStep,
    timeout_seconds: u16,
    value: u32,
) -> Result<(Seq<WatchdogWrite>, WatchdogStep), Error> {
    match step {
        WatchdogStep::Window => if value & 1 != 0 || value & PCI_BAR_MEMORY_MASK == 0 {
            Err(Error::InvalidBar)
        } else {
            Ok(
                (
                    Seq::empty(),
                    WatchdogStep::Command { registers: (value & PCI_BAR_MEMORY_MASK) as u64 },
                ),
            )
        },
        WatchdogStep::Command { registers } => Ok(
            (
                seq![
                    WatchdogWrite::Config32 {
                        register: COMMAND_REGISTER,
                        word: value | PCI_COMMAND_MEMORY,
                    },
                    WatchdogWrite::Config16 { register: ESB_CONFIG_REGISTER, half: 3 },
                ],
                WatchdogStep::Lock { registers },
            ),
        ),
        WatchdogStep::Lock { registers } => if value & (ESB_WATCHDOG_LOCK as u32) != 0 {
            Err(Error::RegisterWriteFailed)
        } else {
            Ok((start_writes(timeout_seconds), WatchdogStep::Installed { registers }))
        },
        WatchdogStep::Installed { registers } => if value & (ESB_WATCHDOG_ENABLE as u32) == 0 {
            Err(Error::RegisterWriteFailed)
        } else {
            Ok((Seq::empty(), WatchdogStep::Running { registers }))
        },
        WatchdogStep::Running { .. } => Ok((Seq::empty(), step)),
    }
}

impl HardwareWatchdog {
    /// Finds a watchdog among the functions and checks the timeout. `None` means
    /// that no supported device was advertised.
    pub fn start(
        functions: &[PciFunction],
        timeout_seconds: u16,
    ) -> (r: Result<Option<(u16, WatchdogStep)>, Error>)
        ensures
            r == (match find_watchdog(functions@, 0) {
                None => Ok::<Option<(u16, WatchdogStep)>, Error>(None),
                Some(requester) => if ESB_MIN_TIMEOUT_SECONDS <= timeout_seconds
                    <= ESB_MAX_TIMEOUT_SECONDS {
                    Ok(Some((requester, WatchdogStep::Window)))
                } else {
                    Err(Error::InvalidTimeout)
                },
            }),
    {
        let mut i: usize = 0;
        while i < functions.len()
            invariant
                i <= functions@.len(),
                find_watchdog(functions@, 0) == find_watchdog(functions@, i as int),
            decreases functions@.len() - i,
        {
            if functions[i].vendor == INTEL_VENDOR_ID && functions[i].device
                == INTEL_6300ESB_WATCHDOG_ID {
                if timeout_seconds < ESB_MIN_TIMEOUT_SECONDS || timeout_seconds
                    > ESB_MAX_TIMEOUT_SECONDS {
                    return Err(Error::InvalidTimeout);
                }
                return Ok(Some((functions[i].requester, WatchdogStep::Window)));
            }
            i += 1;
        }
        Ok(None)
    }

    /// The writes that reload the countdown.
    pub fn heartbeat(&self) -> (r: Vec<WatchdogWrite>)
        ensures
            r@ == unlock_writes().push(
                WatchdogWrite::Memory16 { offset: ESB_RELOAD_OFFSET, half: ESB_RELOAD },
            ),
    {
        let mut writes: Vec<WatchdogWrite> = Vec::new();
        push_unlock(&mut writes);
        writes.push(WatchdogWrite::Memory16 { offset: ESB_RELOAD_OFFSET, half: ESB_RELOAD });
        assert(writes@ =~= unlock_writes().push(
            WatchdogWrite::Memory16 { offset: ESB_RELOAD_OFFSET, half: ESB_RELOAD },
        ));
        writes
    }

    pub fn name(&self) -> (r: &'static str)
        ensures
            r@ == "Intel 6300ESB"@,
    {
        "Intel 6300ESB"
    }
}

fn push_unlock(writes: &mut Vec<WatchdogWrite>)
    ensures
        final(writes)@ == old(writes)@ + unlock_writes(),
{
    writes.push(WatchdogWrite::Memory16 { offset: ESB_RELOAD_OFFSET, half: ESB_UNLOCK1 });
    writes.push(WatchdogWrite::Memory16 { offset: ESB_RELOAD_OFFSET, half: ESB_UNLOCK2 });
    assert(writes@ =~= old(writes)@ + unlock_writes());
}

impl WatchdogStep {
    /// Continues with a value that was read: the writes that come next, and the
    /// step behind them. Timer 1 must not generate an interrupt; timer 2 drives
    /// the reset output.
    pub fn next(
        self,
        timeout_seconds: u16,
        value: u32,
    ) -> (r: Result<(Vec<WatchdogWrite>, Self), Error>)
        requires
            timeout_seconds <= ESB_MAX_TIMEOUT_SECONDS,
        ensures
            match continued(self, timeout_seconds, value) {
                Ok((writes, step)) => r matches Ok(done) && done.0@ == writes && done.1 == step,
                Err(e) => r == Err::<(Vec<WatchdogWrite>, Self), Error>(e),
            },
    {
        let mut writes: Vec<WatchdogWrite> = Vec::new();
        match self {
            WatchdogStep::Window => {
                if value & 1 != 0 || value & PCI_BAR_MEMORY_MASK == 0 {
                    return Err(Error::InvalidBar);
                }
                let registers: u64 = (value & PCI_BAR_MEMORY_MASK) as u64;
                Ok((writes, WatchdogStep::Command { registers }))
            },
            WatchdogStep::Command { registers } => {
                writes.push(
                    WatchdogWrite::Config32 {
                        register: COMMAND_REGISTER,
                        word: value | PCI_COMMAND_MEMORY,
                    },
                );
                writes.push(WatchdogWrite::Config16 { register: ESB_CONFIG_REGISTER, half: 3 });
                assert(writes@ =~= continued(self, timeout_seconds, value)->Ok_0.0);
                Ok((writes, WatchdogStep::Lock { registers }))
            },
            WatchdogStep::Lock { registers } => {
                if value & ESB_WATCHDOG_LOCK as u32 != 0 {
                    return Err(Error::RegisterWriteFailed);
                }
                let timer: u32 = timeout_seconds as u32 * 0x200;
                writes.push(WatchdogWrite::Config8 { register: ESB_LOCK_REGISTER, byte: 0 });
                push_unlock(&mut writes);
                writes.push(
                    WatchdogWrite::Memory16 {
                        offset: ESB_RELOAD_OFFSET,
                        half: ESB_TIMED_OUT | ESB_RELOAD,
                    },
                );
                push_unlock(&mut writes);
                writes.push(WatchdogWrite::Memory32 { offset: ESB_TIMER1_OFFSET, word: timer });
                push_unlock(&mut writes);
                writes.push(WatchdogWrite::Memory32 { offset: ESB_TIMER2_OFFSET, word: timer });
                push_unlock(&mut writes);
                writes.push(WatchdogWrite::Memory16 { offset: ESB_RELOAD_OFFSET, half: ESB_RELOAD });
                writes.push(
                    WatchdogWrite::Config8 { register: ESB_LOCK_REGISTER, byte: ESB_WATCHDOG_ENABLE },
                );
                assert(writes@ =~= start_writes(timeout_seconds));
                Ok((writes, WatchdogStep::Installed { registers }))
            },
            WatchdogStep::Installed { registers } => {
                if value & ESB_WATCHDOG_ENABLE as u32 == 0 {
                    return Err(Error::RegisterWriteFailed);
                }
                Ok((writes, WatchdogStep::Running { registers }))
            },
            WatchdogStep::Running { registers } => Ok((writes, WatchdogStep::Running { registers })),
        }
    }
}

/// The watchdog is the first function with vendor 0x8086 and device 0x25ab, and there is
/// none exactly where no function has them.
pub proof fn law_first_watchdog_is_found(functions: Seq<PciFunction>, i: int)
    requires
        0 <= i <= functions.len(),
    ensures
        find_watchdog(functions, i) is None <==> forall|k: int|
            i <= k < functions.len() ==> !((#[trigger] functions[k]).vendor == 0x8086
                && functions[k].device == 0x25ab),
        find_watchdog(functions, i) matches Some(requester) ==> exists|k: int|
            i <= k < functions.len() && (#[trigger] functions[k]).vendor == 0x8086
                && functions[k].device == 0x25ab && functions[k].requester == requester && forall|
                j: int,
            |
                i <= j < k ==> !((#[trigger] functions[j]).vendor == 0x8086 && functions[j].device
                    == 0x25ab),
    decreases functions.len() - i,
{
    if i < functions.len() {
        if is_watchdog(functions[i]) {
            assert(functions[i].vendor == 0x8086);
        } else {
            law_first_watchdog_is_found(functions, i + 1);
            if find_watchdog(functions, i + 1) is Some {
                let k = choose|k: int|
                    i + 1 <= k < functions.len() && (#[trigger] functions[k]).vendor == 0x8086
                        && functions[k].device == 0x25ab && functions[k].requester
                        == find_watchdog(functions, i + 1)->0 && forall|j: int|
                        i + 1 <= j < k ==> !((#[trigger] functions[j]).vendor == 0x8086
                            && functions[j].device == 0x25ab);
                assert(functions[k].vendor == 0x8086);
                assert forall|j: int| i <= j < k implies !((
                #[trigger] functions[j]).vendor == 0x8086 && functions[j].device == 0x25ab) by {}
            }
        }
    }
}

/// Whether a write is one of the two that unlock the registers.
pub open spec fn is_unlock(write: WatchdogWrite) -> bool {
    ||| write == (WatchdogWrite::Memory16 { offset: 0x0c, half: 0x80 })
    ||| write == (WatchdogWrite::Memory16 { offset: 0x0c, half: 0x86 })
}

/// Whether a write to the registers has the two unlocking writes, 0x80 and 0x86 to 0x0c,
/// right before it.
pub open spec fn is_unlocked(writes: Seq<WatchdogWrite>, i: int) -> bool {
    &&& i >= 2
    &&& writes[i - 2] == (WatchdogWrite::Memory16 { offset: 0x0c, half: 0x80 })
    &&& writes[i - 1] == (WatchdogWrite::Memory16 { offset: 0x0c, half: 0x86 })
}

/// The countdown is programmed while the watchdog is off (0 to the lock register at 0x68)
/// and switched on last (2 to it). Every register is written unlocked: the timeout flag is
/// cleared (0x300 to 0x0c), both stages (at 0x00 and 0x04) get the timeout in units of
/// 1/512 second, and the countdown is reloaded (0x100 to 0x0c) after both.
pub proof fn law_watchdog_starts_with_the_whole_timeout(timeout_seconds: u16)
    requires
        timeout_seconds <= 2046,
    ensures
        ({
            let writes = start_writes(timeout_seconds);
            let n = writes.len() as int;
            &&& writes[0] == (WatchdogWrite::Config8 { register: 0x68, byte: 0 })
            &&& writes[n - 1] == (WatchdogWrite::Config8 { register: 0x68, byte: 2 })
            &&& forall|i: int|
                0 < i < n - 1 ==> is_unlock(#[trigger] writes[i]) || is_unlocked(writes, i)
            &&& exists|a: int, b: int, c: int, d: int|
                0 < a < b && a < c && b < d && c < d < n - 1 && #[trigger] writes[a] == (
                WatchdogWrite::Memory16 { offset: 0x0c, half: 0x300 }) && #[trigger] writes[b] == (
                WatchdogWrite::Memory32 { offset: 0x00, word: (512 * timeout_seconds) as u32 })
                    && #[trigger] writes[c] == (WatchdogWrite::Memory32 {
                    offset: 0x04,
                    word: (512 * timeout_seconds) as u32,
                }) && #[trigger] writes[d] == (WatchdogWrite::Memory16 {
                    offset: 0x0c,
                    half: 0x100,
                })
        }),
{
    assert(0x200u16 | 0x100 == 0x300) by (bit_vector);
    let writes = start_writes(timeout_seconds);
    assert(writes.len() == 14);
    assert(writes[1] == (WatchdogWrite::Memory16 { offset: 0x0c, half: 0x80 }));
    assert(writes[2] == (WatchdogWrite::Memory16 { offset: 0x0c, half: 0x86 }));
    assert(writes[3] == (WatchdogWrite::Memory16 { offset: 0x0c, half: 0x300 }));
    assert(writes[4] == (WatchdogWrite::Memory16 { offset: 0x0c, half: 0x80 }));
    assert(writes[5] == (WatchdogWrite::Memory16 { offset: 0x0c, half: 0x86 }));
    assert(writes[6] == (WatchdogWrite::Memory32 {
        offset: 0x00,
        word: (512 * timeout_seconds) as u32,
    }));
    assert(writes[7] == (WatchdogWrite::Memory16 { offset: 0x0c, half: 0x80 }));
    assert(writes[8] == (WatchdogWrite::Memory16 { offset: 0x0c, half: 0x86 }));
    assert(writes[9] == (WatchdogWrite::Memory32 {
        offset: 0x04,
        word: (512 * timeout_seconds) as u32,
    }));
    assert(writes[10] == (WatchdogWrite::Memory16 { offset: 0x0c, half: 0x80 }));
    assert(writes[11] == (WatchdogWrite::Memory16 { offset: 0x0c, half: 0x86 }));
    assert(writes[12] == (WatchdogWrite::Memory16 { offset: 0x0c, half: 0x100 }));
    assert forall|i: int| 0 < i < 13 implies is_unlock(#[trigger] writes[i]) || is_unlocked(
        writes,
        i,
    ) by {
        assert(i == 1 || i == 2 || i == 3 || i == 4 || i == 5 || i == 6 || i == 7 || i == 8 || i == 9
            || i == 10 || i == 11 || i == 12);
    }
}

/// A watchdog gets as far as running only where its window is memory (bit 0 clear) at an
/// address that is not zero, it was not locked (bit 0 of the lock register) and it reads
/// back as running (bit 1). The registers that it runs with are those of its window, its
/// decoding of memory is switched on, and its first stage is kept from interrupting.
pub proof fn law_running_watchdog_was_set_up(
    timeout_seconds: u16,
    window: u32,
    command: u32,
    lock: u32,
    installed: u32,
)
    ensures
        window & 1 != 0 || window & 0xffff_fff0 == 0 ==> continued(
            WatchdogStep::Window,
            timeout_seconds,
            window,
        ) == Err::<(Seq<WatchdogWrite>, WatchdogStep), Error>(Error::InvalidBar),
        window & 1 == 0 && window & 0xffff_fff0 != 0 ==> {
            let registers = (window & 0xffff_fff0) as u64;
            &&& continued(WatchdogStep::Window, timeout_seconds, window) == Ok::<
                (Seq<WatchdogWrite>, WatchdogStep),
                Error,
            >((Seq::empty(), WatchdogStep::Command { registers }))
            &&& continued(WatchdogStep::Command { registers }, timeout_seconds, command) == Ok::<
                (Seq<WatchdogWrite>, WatchdogStep),
                Error,
            >(
                (
                    seq![
                        WatchdogWrite::Config32 { register: 0x04, word: command | 2 },
                        WatchdogWrite::Config16 { register: 0x60, half: 3 },
                    ],
                    WatchdogStep::Lock { registers },
                ),
            )
            &&& lock & 1 != 0 ==> continued(
                WatchdogStep::Lock { registers },
                timeout_seconds,
                lock,
            ) == Err::<(Seq<WatchdogWrite>, WatchdogStep), Error>(Error::RegisterWriteFailed)
            &&& lock & 1 == 0 ==> (continued(
                WatchdogStep::Lock { registers },
                timeout_seconds,
                lock,
            ) matches Ok((writes, step)) && step == (WatchdogStep::Installed { registers })
                && writes == start_writes(timeout_seconds))
            &&& installed & 2 == 0 ==> continued(
                WatchdogStep::Installed { registers },
                timeout_seconds,
                installed,
            ) == Err::<(Seq<WatchdogWrite>, WatchdogStep), Error>(Error::RegisterWriteFailed)
            &&& installed & 2 != 0 ==> continued(
                WatchdogStep::Installed { registers },
                timeout_seconds,
                installed,
            ) == Ok::<(Seq<WatchdogWrite>, WatchdogStep), Error>(
                (Seq::empty(), WatchdogStep::Running { registers }),
            )
        },
{
}

/// A heartbeat is the reload, unlocked.
pub proof fn law_heartbeat_is_unlocked()
    ensures
        unlock_writes().len() == 2,
        is_unlocked(
            unlock_writes().push(WatchdogWrite::Memory16 { offset: 0x0c, half: 0x100 }),
            2,
        ),
{
}

} // verus!
