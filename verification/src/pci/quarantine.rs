//! Stopping every function before any Domain runs.

use vstd::prelude::*;

use super::{
    law_requester_parts_are_inverse, requester_id, requester_of, PciFunction, COMMAND_BUS_MASTER, MAX_ACTIVE_REQUESTERS,
    MAX_INVENTORY_FUNCTIONS,
};

verus! {

/// What was found and stopped on the machine's buses.
#[derive(Debug, PartialEq, Eq)]
pub struct QuarantineReport {
    pub functions: u32,
    pub bus_masters_disabled: u32,
    pub bus_masters_active: u32,
    pub first_active_requester: Option<u16>,
    pub display_requester: Option<u16>,
    pub active_requesters: Vec<u16>,
    pub inventory: Vec<PciFunction>,
}

/// The registers that identify a function.
#[derive(Clone, Copy, Debug, PartialEq, Eq, Structural)]
pub struct FunctionRegisters {
    pub bus: u8,
    pub device: u8,
    pub function: u8,
    pub vendor: u16,
    pub device_id: u16,
    pub class: u8,
    pub subclass: u8,
    /// Of a bridge, the bus behind it.
    pub secondary_bus: u8,
}

impl FunctionRegisters {
    pub open spec fn requester(self) -> u16 {
        requester_of(self.bus, self.device, self.function)
    }

    pub open spec fn as_function(self) -> PciFunction {
        PciFunction {
            requester: self.requester(),
            vendor: self.vendor,
            device: self.device_id,
            class: self.class,
            subclass: self.subclass,
        }
    }

    /// The further bus that the function leads to: the one behind a bridge, or
    /// that of an additional host bridge.
    pub open spec fn leads_to(self) -> Option<u8> {
        let next = if self.class == 0x06 && self.subclass == 0x04 {
            self.secondary_bus
        } else if self.bus == 0 && self.class == 0x06 && self.subclass == 0x00 {
            self.function
        } else {
            0
        };
        if next == 0 {
            None
        } else {
            Some(next)
        }
    }
}

/// One more, up to the largest number.
pub open spec fn one_more(n: u32) -> u32 {
    if n < u32::MAX {
        (n + 1) as u32
    } else {
        n
    }
}

/// The list with one more element, while there is room.
pub open spec fn bounded_push<T>(list: Seq<T>, value: T, limit: int) -> Seq<T> {
    if list.len() < limit {
        list.push(value)
    } else {
        list
    }
}

impl Default for QuarantineReport {
    fn default() -> (r: Self)
        ensures
            r.functions == 0,
            r.bus_masters_disabled == 0,
            r.bus_masters_active == 0,
            r.first_active_requester is None,
            r.display_requester is None,
            r.active_requesters@ == Seq::<u16>::empty(),
            r.inventory@ == Seq::<PciFunction>::empty(),
    {
        QuarantineReport {
            functions: 0,
            bus_masters_disabled: 0,
            bus_masters_active: 0,
            first_active_requester: None,
            display_requester: None,
            active_requesters: Vec::new(),
            inventory: Vec::new(),
        }
    }
}

impl QuarantineReport {
    /// The first 32 functions that could not be stopped.
    pub fn active_requesters(&self) -> (r: &[u16])
        ensures
            r@ == self.active_requesters@,
    {
        &self.active_requesters
    }

    /// Whether every function that could not be stopped is listed.
    pub fn recorded_every_active_requester(&self) -> (r: bool)
        ensures
            r == (self.active_requesters@.len() as u32 == self.bus_masters_active),
    {
        self.active_requesters.len() as u32 == self.bus_masters_active
    }

    /// The first 256 functions.
    pub fn inventory(&self) -> (r: &[PciFunction])
        ensures
            r@ == self.inventory@,
    {
        &self.inventory
    }

    /// Lists a function. Gives the further bus that it leads to, and whether it
    /// has to be kept from starting DMA.
    ///
    /// Bridges forward transactions of the functions behind them and start none
    /// of their own, so their forwarding path is left intact.
    pub fn record_function(&mut self, f: &FunctionRegisters) -> (r: (Option<u8>, bool))
        ensures
            r.0 == f.leads_to(),
            r.1 == (f.class != 0x06),
            final(self).functions == one_more(old(self).functions),
            final(self).inventory@ == bounded_push(
                old(self).inventory@,
                f.as_function(),
                MAX_INVENTORY_FUNCTIONS as int,
            ),
            final(self).display_requester == (if f.class == 0x03
                && old(self).display_requester is None {
                Some(f.requester())
            } else {
                old(self).display_requester
            }),
            final(self).bus_masters_disabled == old(self).bus_masters_disabled,
            final(self).bus_masters_active == old(self).bus_masters_active,
            final(self).first_active_requester == old(self).first_active_requester,
            final(self).active_requesters@ == old(self).active_requesters@,
    {
        self.functions = self.functions.saturating_add(1);
        let requester: u16 = requester_id(f.bus, f.device, f.function);
        if self.inventory.len() < MAX_INVENTORY_FUNCTIONS {
            self.inventory.push(
                PciFunction {
                    requester,
                    vendor: f.vendor,
                    device: f.device_id,
                    class: f.class,
                    subclass: f.subclass,
                },
            );
        }
        let next_bus: u8 = if f.class == 0x06 && f.subclass == 0x04 {
            f.secondary_bus
        } else if f.bus == 0 && f.class == 0x06 && f.subclass == 0x00 {
            f.function
        } else {
            0
        };
        if f.class == 0x03 && self.display_requester.is_none() {
            self.display_requester = Some(requester);
        }
        let leads_to = if next_bus == 0 {
            None
        } else {
            Some(next_bus)
        };
        (leads_to, function_has_bus_master_control(f.class, f.subclass))
    }

    /// Records whether a function accepted the command that keeps it from
    /// starting DMA. `read_back` is its command register afterwards.
    pub fn record_stop(&mut self, requester: u16, read_back: u16)
        ensures
            ({
                let stopped = read_back & COMMAND_BUS_MASTER == 0;
                &&& final(self).bus_masters_disabled == (if stopped {
                    one_more(old(self).bus_masters_disabled)
                } else {
                    old(self).bus_masters_disabled
                })
                &&& final(self).bus_masters_active == (if stopped {
                    old(self).bus_masters_active
                } else {
                    one_more(old(self).bus_masters_active)
                })
                &&& final(self).first_active_requester == (if stopped
                    || old(self).first_active_requester is Some {
                    old(self).first_active_requester
                } else {
                    Some(requester)
                })
                &&& final(self).active_requesters@ == (if stopped {
                    old(self).active_requesters@
                } else {
                    bounded_push(old(self).active_requesters@, requester, MAX_ACTIVE_REQUESTERS as int)
                })
            }),
            final(self).functions == old(self).functions,
            final(self).display_requester == old(self).display_requester,
            final(self).inventory@ == old(self).inventory@,
    {
        if read_back & COMMAND_BUS_MASTER == 0 {
            self.bus_masters_disabled = self.bus_masters_disabled.saturating_add(1);
        } else {
            self.bus_masters_active = self.bus_masters_active.saturating_add(1);
            if self.first_active_requester.is_none() {
                self.first_active_requester = Some(requester);
            }
            if self.active_requesters.len() < MAX_ACTIVE_REQUESTERS {
                self.active_requesters.push(requester);
            }
        }
    }
}

/// Whether a function can be kept from starting DMA: bridges are left alone.
pub fn function_has_bus_master_control(class: u8, _subclass: u8) -> (r: bool)
    ensures
        r == (class != 0x06),
{
    class != 0x06
}

/// The command without bus mastering.
pub fn without_bus_master(command: u16) -> (r: u16)
    ensures
        r == command & !COMMAND_BUS_MASTER,
{
    command & !COMMAND_BUS_MASTER
}

/// How many functions the device may have, from the header type of its first.
pub fn function_count(header_type: u8) -> (r: u8)
    ensures
        r == (if header_type & 0x80 != 0 {
            8u8
        } else {
            1
        }),
{
    if header_type & 0x80 != 0 {
        8
    } else {
        1
    }
}

/// The buses still to be scanned, breadth first from bus zero.
pub struct BusScan {
    queue: Vec<u8>,
    queued: [bool; 256],
    head: usize,
}

impl BusScan {
    /// All buses that were ever found, in the order of discovery.
    pub closed spec fn found(self) -> Seq<u8> {
        self.queue@
    }

    /// How many of them have been handed out.
    pub closed spec fn scanned(self) -> int {
        self.head as int
    }

    /// No bus was found twice, and the marks say which were found.
    pub closed spec fn wf(self) -> bool {
        &&& self.head <= self.queue@.len()
        &&& self.queue@.no_duplicates()
        &&& forall|b: int| 0 <= b < 256 ==> (#[trigger] self.queued@[b] <==> self.queue@.contains(b as u8))
    }

    /// A scan that starts at bus zero.
    pub fn new() -> (r: Self)
        ensures
            r.wf(),
            r.found() == seq![0u8],
            r.scanned() == 0,
    {
        let mut queue: Vec<u8> = Vec::new();
        queue.push(0);
        let mut queued: [bool; 256] = [false; 256];
        queued[0] = true;
        assert(queue@ =~= seq![0u8]);
        assert(queue@[0] == 0);
        BusScan { queue, queued, head: 0 }
    }

    /// The next bus to scan.
    pub fn next_bus(&mut self) -> (r: Option<u8>)
        requires
            old(self).wf(),
        ensures
            final(self).wf(),
            final(self).found() == old(self).found(),
            if old(self).scanned() < old(self).found().len() {
                r == Some(old(self).found()[old(self).scanned()]) && final(self).scanned()
                    == old(self).scanned() + 1
            } else {
                r is None && final(self).scanned() == old(self).scanned()
            },
    {
        if self.head < self.queue.len() {
            let bus: u8 = self.queue[self.head];
            self.head = self.head + 1;
            Some(bus)
        } else {
            None
        }
    }

    /// Adds a bus, unless it was found before.
    pub fn enqueue_bus(&mut self, bus: u8)
        requires
            old(self).wf(),
        ensures
            final(self).wf(),
            final(self).scanned() == old(self).scanned(),
            final(self).found() == (if old(self).found().contains(bus) {
                old(self).found()
            } else {
                old(self).found().push(bus)
            }),
    {
        assert(self.queued@[bus as int] <==> self.queue@.contains(bus));
        if !self.queued[bus as usize] {
            let ghost before = self.queue@;
            self.queued[bus as usize] = true;
            self.queue.push(bus);
            assert forall|b: int| 0 <= b < 256 implies (#[trigger] self.queued@[b]
                <==> self.queue@.contains(b as u8)) by {
                if b == bus {
                    assert(self.queue@[before.len() as int] == bus);
                } else if before.contains(b as u8) {
                    let i = choose|i: int| 0 <= i < before.len() && before[i] == b as u8;
                    assert(self.queue@[i] == b as u8);
                } else if self.queue@.contains(b as u8) {
                    let i = choose|i: int| 0 <= i < self.queue@.len() && self.queue@[i] == b as u8;
                    assert(i < before.len() ==> before[i] == b as u8);
                }
            }
        }
    }
}

/// No bus is scanned twice, whatever the bridges claim to lead to.
pub proof fn law_no_bus_is_scanned_twice(scan: BusScan, i: int, j: int)
    requires
        scan.wf(),
        0 <= i < j < scan.found().len(),
    ensures
        scan.found()[i] != scan.found()[j],
{
}

/// Where a function leads: a bridge (class 6, subclass 4) to the bus behind it, and a host
/// bridge (class 6, subclass 0) on the first bus to the bus with its function's number; bus
/// zero is where the scan starts and nothing leads back there.
pub proof fn law_bridges_lead_to_their_buses(f: FunctionRegisters)
    ensures
        f.class == 6 && f.subclass == 4 ==> f.leads_to() == (if f.secondary_bus == 0 {
            None
        } else {
            Some(f.secondary_bus)
        }),
        f.class == 6 && f.subclass == 0 && f.bus == 0 ==> f.leads_to() == (if f.function == 0 {
            None
        } else {
            Some(f.function)
        }),
        f.class != 6 || f.subclass != 4 && f.subclass != 0 || f.subclass == 0 && f.bus != 0
            ==> f.leads_to() is None,
        f.leads_to() != Some(0u8),
{
}

/// A function is listed under its requester with what identifies it, and no list grows
/// beyond its limit or loses what it has.
pub proof fn law_functions_are_listed(f: FunctionRegisters, list: Seq<PciFunction>, limit: int)
    requires
        f.device < 32,
        f.function < 8,
    ensures
        f.as_function().requester == 0x100 * f.bus + 8 * f.device + f.function,
        f.as_function().vendor == f.vendor,
        f.as_function().device == f.device_id,
        f.as_function().class == f.class,
        f.as_function().subclass == f.subclass,
        list.len() < limit ==> bounded_push(list, f.as_function(), limit) == list.push(
            f.as_function(),
        ),
        list.len() >= limit ==> bounded_push(list, f.as_function(), limit) == list,
        one_more(u32::MAX) == u32::MAX,
        forall|n: u32| n < u32::MAX ==> #[trigger] one_more(n) == n + 1,
{
    law_requester_parts_are_inverse(0, f.bus, f.device, f.function);
}

} // verus!
