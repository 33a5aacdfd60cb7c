//! The descriptor tables of a host CPU.

use vstd::prelude::*;

use crate::pci::{DEVICE_VECTOR_FIRST, DEVICE_VECTOR_LAST};
use super::timer::VECTOR;
use crate::Error;

verus! {

pub const KERNEL_CODE_SELECTOR: u16 = 0x08;

pub const KERNEL_DATA_SELECTOR: u16 = 0x10;

pub const TSS_SELECTOR: u16 = 0x18;

pub const INTERRUPT_GATE: u8 = 0x8e;

pub const TSS_SIZE: u16 = 104;

/// A gate of the interrupt table.
#[derive(Clone, Copy, Debug, PartialEq, Eq, Structural)]
pub struct IdtEntry {
    pub offset_low: u16,
    pub selector: u16,
    pub ist: u8,
    pub attributes: u8,
    pub offset_middle: u16,
    pub offset_high: u32,
    pub reserved: u32,
}

/// Each host CPU owns a permanent instance; LTR marks its GDT's TSS busy.
pub struct HostTables {
    pub gdt: [u64; 5],
    pub idt: [IdtEntry; 256],
    pub tss: [u8; 104],
}

/// The addresses of the handlers that gates lead to.
#[derive(Clone, Copy, Debug, PartialEq, Eq, Structural)]
pub struct Handlers {
    pub exception: u64,
    pub timer: u64,
    pub device: u64,
}

/// A gate that leads nowhere.
pub open spec fn missing_gate() -> IdtEntry {
    IdtEntry {
        offset_low: 0,
        selector: 0,
        ist: 0,
        attributes: 0,
        offset_middle: 0,
        offset_high: 0,
        reserved: 0,
    }
}

/// A gate that leads to a handler with interrupts disabled.
pub open spec fn gate(handler: u64) -> IdtEntry {
    IdtEntry {
        offset_low: (handler % 0x1_0000) as u16,
        selector: KERNEL_CODE_SELECTOR,
        ist: 0,
        attributes: INTERRUPT_GATE,
        offset_middle: (handler / 0x1_0000 % 0x1_0000) as u16,
        offset_high: (handler / 0x1_0000_0000) as u32,
        reserved: 0,
    }
}

/// The handler of a vector.
pub open spec fn handler_of(handlers: Handlers, vector: int) -> u64 {
    if DEVICE_VECTOR_FIRST <= vector <= DEVICE_VECTOR_LAST {
        handlers.device
    } else if vector == VECTOR {
        handlers.timer
    } else {
        handlers.exception
    }
}

/// The lower word of an available TSS descriptor.
pub open spec fn tss_low(base: u64) -> u64 {
    (TSS_SIZE - 1) as u64 | ((base & 0x00ff_ffff) << 16) | (0x89u64 << 40) | (((base >> 24) & 0xff)
        << 56)
}

/// The lower word of the same descriptor once LTR has marked it busy.
pub open spec fn busy(low: u64) -> u64 {
    low | (2u64 << 40)
}

/// The base that a busy TSS descriptor holds.
pub open spec fn tss_base(low: u64, high: u64) -> Result<u64, Error> {
    if (low >> 40) & 0xff != 0x8b || high >> 32 != 0 {
        Err(Error::InvalidState)
    } else {
        Ok(((low >> 16) & 0xff_ffff) | ((low >> 32) & 0xff00_0000) | (high << 32))
    }
}

impl IdtEntry {
    /// A gate that leads nowhere.
    pub fn missing() -> (r: Self)
        ensures
            r == missing_gate(),
    {
        IdtEntry {
            offset_low: 0,
            selector: 0,
            ist: 0,
            attributes: 0,
            offset_middle: 0,
            offset_high: 0,
            reserved: 0,
        }
    }

    /// A gate that leads to a handler with interrupts disabled.
    pub fn interrupt(handler: u64) -> (r: Self)
        ensures
            r == gate(handler),
    {
        IdtEntry {
            offset_low: (handler % 0x1_0000) as u16,
            selector: KERNEL_CODE_SELECTOR,
            ist: 0,
            attributes: INTERRUPT_GATE,
            offset_middle: (handler / 0x1_0000 % 0x1_0000) as u16,
            offset_high: (handler / 0x1_0000_0000) as u32,
            reserved: 0,
        }
    }
}

impl HostTables {
    /// Tables with code and data segments, and nothing else.
    pub fn new() -> (r: Self)
        ensures
            r.gdt@ == seq![
                0u64,
                0x00af_9a00_0000_ffffu64,
                0x00af_9200_0000_ffffu64,
                0u64,
                0u64,
            ],
            forall|i: int| 0 <= i < 256 ==> #[trigger] r.idt@[i] == missing_gate(),
            forall|i: int| 0 <= i < 104 ==> #[trigger] r.tss@[i] == 0,
    {
        let none = IdtEntry::missing();
        let gdt: [u64; 5] = [0, 0x00af_9a00_0000_ffff, 0x00af_9200_0000_ffff, 0, 0];
        assert(gdt@ =~= seq![
            0u64,
            0x00af_9a00_0000_ffffu64,
            0x00af_9200_0000_ffffu64,
            0u64,
            0u64,
        ]);
        HostTables { gdt, idt: [none; 256], tss: [0; 104] }
    }

    /// Fills the tables in for a CPU whose TSS is at `tss_address`.
    pub fn install(&mut self, handlers: Handlers, tss_address: u64)
        ensures
            final(self).gdt@ == old(self).gdt@.update(3, tss_low(tss_address)).update(
                4,
                tss_address >> 32,
            ),
            forall|i: int|
                0 <= i < 256 ==> #[trigger] final(self).idt@[i] == gate(handler_of(handlers, i)),
            final(self).tss@ == old(self).tss@.update(102, 104).update(103, 0),
    {
        let mut vector: usize = 0;
        while vector < 256
            invariant
                vector <= 256,
                self.gdt@ == old(self).gdt@,
                self.tss@ == old(self).tss@,
                forall|i: int|
                    0 <= i < vector ==> #[trigger] self.idt@[i] == gate(handler_of(handlers, i)),
            decreases 256 - vector,
        {
            let handler: u64 = if vector >= DEVICE_VECTOR_FIRST as usize && vector
                <= DEVICE_VECTOR_LAST as usize {
                handlers.device
            } else if vector == VECTOR as usize {
                handlers.timer
            } else {
                handlers.exception
            };
            self.idt[vector] = IdtEntry::interrupt(handler);
            vector += 1;
        }
        self.gdt[3] =
        (TSS_SIZE - 1) as u64 | ((tss_address & 0x00ff_ffff) << 16) | (0x89u64 << 40) | (((
        tss_address >> 24) & 0xff) << 56);
        self.gdt[4] = tss_address >> 32;
        self.tss[102] = 104;
        self.tss[103] = 0;
    }
}

/// Where the selected TSS descriptor is in the GDT, if the selector can name one.
pub fn tss_descriptor_offset(selector: u16, gdt_limit: u16) -> (r: Result<usize, Error>)
    ensures
        ({
            let offset = (selector & 0xfff8) as int;
            r == (if selector & 4 != 0 || offset == 0 || offset + 15 > gdt_limit {
                Err::<usize, Error>(Error::InvalidState)
            } else {
                Ok(offset as usize)
            })
        }),
{
    let offset: usize = (selector & 0xfff8) as usize;
    if selector & 4 != 0 || offset == 0 || offset + 15 > gdt_limit as usize {
        return Err(Error::InvalidState);
    }
    Ok(offset)
}

/// The base that a busy TSS descriptor holds.
pub fn decode_tss_base(low: u64, high: u64) -> (r: Result<u64, Error>)
    ensures
        r == tss_base(low, high),
{
    if (low >> 40) & 0xff != 0x8b || high >> 32 != 0 {
        return Err(Error::InvalidState);
    }
    Ok(((low >> 16) & 0xff_ffff) | ((low >> 32) & 0xff00_0000) | (high << 32))
}

/// The TSS that was installed on a CPU is the one that is read back, with all bits of its
/// address. It has 104 bytes, and it is available until it is loaded: only one that was
/// marked busy is read back.
pub proof fn law_installed_tss_is_read_back(base: u64)
    ensures
        tss_base(busy(tss_low(base)), base >> 32) == Ok::<u64, Error>(base),
        tss_low(base) & 0xffff == 103,
        (tss_low(base) >> 40) & 0xff == 0x89,
        (tss_low(base) >> 48) & 0xff == 0,
        tss_base(tss_low(base), base >> 32) == Err::<u64, Error>(Error::InvalidState),
{
    let low = tss_low(base);
    let marked = busy(low);
    assert((marked >> 40) & 0xff == 0x8b && (base >> 32) >> 32 == 0 && ((marked >> 16) & 0xff_ffff)
        | ((marked >> 32) & 0xff00_0000) | ((base >> 32) << 32) == base && low & 0xffff == 103 && (low
        >> 40) & 0xff == 0x89 && (low >> 48) & 0xff == 0) by (bit_vector)
        requires
            marked == low | (2u64 << 40),
            low == 103u64 | ((base & 0x00ff_ffff) << 16) | (0x89u64 << 40) | (((base >> 24) & 0xff)
                << 56),
    ;
}

/// A gate leads to the handler that it was made for.
pub proof fn law_gate_holds_its_handler(handler: u64)
    ensures
        gate(handler).offset_low + 0x1_0000 * gate(handler).offset_middle + 0x1_0000_0000 * gate(
            handler,
        ).offset_high == handler,
{
}

/// Every gate enters the host's 64-bit code (selector 8) at its own privilege and on the
/// current stack, with interrupts off (a present interrupt gate, 0x8e).
pub proof fn law_gates_enter_the_kernel(handler: u64)
    ensures
        gate(handler).selector == 8,
        gate(handler).attributes == 0x8e,
        gate(handler).ist == 0,
        gate(handler).reserved == 0,
{
}

/// Device interrupts (vectors 0x50 to 0x8f) go to their handler, the timer's (0xf0) to its
/// own, and every other vector to the one of exceptions.
pub proof fn law_vectors_have_their_handlers(handlers: Handlers, vector: int)
    ensures
        0x50 <= vector <= 0x8f ==> handler_of(handlers, vector) == handlers.device,
        vector == 0xf0 ==> handler_of(handlers, vector) == handlers.timer,
        !(0x50 <= vector <= 0x8f) && vector != 0xf0 ==> handler_of(handlers, vector)
            == handlers.exception,
{
}

} // verus!
