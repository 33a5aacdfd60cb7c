//! How a function is made to signal, and how it is silenced.

use vstd::prelude::*;

use super::{
    msix_entries, PciBar, PciDescriptor, PciError, APIC_ENABLE, COMMAND_BUS_MASTER,
    COMMAND_INTERRUPT_DISABLE, COMMAND_MEMORY, DEVICE_VECTOR_FIRST, DEVICE_VECTOR_LAST, MSIX_ENABLE,
    MSIX_ENTRY_MASKED, MSIX_FUNCTION_MASK, MSIX_TABLE_BIR, MSIX_TABLE_OFFSET, MSIX_TABLE_SIZE,
    MSI_64_BIT, MSI_ENABLE, MSI_PER_VECTOR_MASK, MSI_VECTOR_COUNT, PCIE_DEVICE_CAP_FLR,
    PCIE_DEVICE_CONTROL_FLR, X2APIC_ENABLE,
};

verus! {

/// One access to the configuration space of a function.
#[derive(Clone, Copy, Debug, PartialEq, Eq, Structural)]
pub enum ConfigAction {
    WriteHalf { offset: u8, half: u16 },
    WriteWord { offset: u8, word: u32 },
    /// All accesses before complete before any after.
    Fence,
}

/// A 32-bit write to device memory.
#[derive(Clone, Copy, Debug, PartialEq, Eq, Structural)]
pub struct MmioWrite {
    pub address: u64,
    pub value: u32,
}

/// The control word of a message capability, switched off, with one vector.
pub open spec fn msi_off(control: u16) -> u16 {
    control & !(MSI_VECTOR_COUNT | MSI_ENABLE)
}

/// Where the mask register of a message capability is.
pub open spec fn msi_mask_offset(control: u16) -> int {
    if control & MSI_64_BIT != 0 {
        0x10
    } else {
        0x0c
    }
}

/// The writes that point a message capability at a vector and switch it on. The
/// vectors stay masked until it is on.
pub open spec fn msi_actions(
    capability: u8,
    control: u16,
    address: u64,
    vector: u8,
) -> Seq<ConfigAction> {
    let off = msi_off(control);
    let wide = off & MSI_64_BIT != 0;
    let masked = off & MSI_PER_VECTOR_MASK != 0;
    let control_at = (capability + 2) as u8;
    let mask_at = (capability + msi_mask_offset(off)) as u8;
    seq![ConfigAction::WriteHalf { offset: control_at, half: off }] + (if masked {
        seq![ConfigAction::WriteWord { offset: mask_at, word: 0xffff_ffff }]
    } else {
        Seq::empty()
    }) + seq![
        ConfigAction::WriteWord { offset: (capability + 4) as u8, word: address as u32 },
    ] + (if wide {
        seq![
            ConfigAction::WriteWord {
                offset: (capability + 8) as u8,
                word: (address >> 32) as u32,
            },
            ConfigAction::WriteHalf { offset: (capability + 0x0c) as u8, half: vector as u16 },
        ]
    } else {
        seq![ConfigAction::WriteHalf { offset: (capability + 8) as u8, half: vector as u16 }]
    }) + seq![
        ConfigAction::Fence,
        ConfigAction::WriteHalf { offset: control_at, half: off | MSI_ENABLE },
    ] + (if masked {
        seq![ConfigAction::WriteWord { offset: mask_at, word: 0xffff_fffe }]
    } else {
        Seq::empty()
    })
}

/// Plans how to point a message capability at a vector. `control` is its control
/// word.
pub fn enable_msi(
    descriptor: &PciDescriptor,
    control: u16,
    address: u64,
    vector: u8,
) -> (r: Result<Vec<ConfigAction>, PciError>)
    requires
        descriptor.wf(),
    ensures
        match r {
            Ok(actions) => descriptor.msi_capability != 0 && actions@ == msi_actions(
                descriptor.msi_capability,
                control,
                address,
                vector,
            ),
            Err(e) => descriptor.msi_capability == 0 && e == PciError::InterruptUnavailable,
        },
{
    let capability: u8 = descriptor.msi_capability;
    if capability == 0 {
        return Err(PciError::InterruptUnavailable);
    }
    let off: u16 = control & !(MSI_VECTOR_COUNT | MSI_ENABLE);
    let wide = off & MSI_64_BIT != 0;
    let masked = off & MSI_PER_VECTOR_MASK != 0;
    let mask_at: u8 = capability + (if wide {
        0x10
    } else {
        0x0c
    });
    let mut actions: Vec<ConfigAction> = Vec::new();
    actions.push(ConfigAction::WriteHalf { offset: capability + 2, half: off });
    if masked {
        actions.push(ConfigAction::WriteWord { offset: mask_at, word: 0xffff_ffff });
    }
    actions.push(ConfigAction::WriteWord { offset: capability + 4, word: address as u32 });
    if wide {
        actions.push(
            ConfigAction::WriteWord { offset: capability + 8, word: (address >> 32) as u32 },
        );
        actions.push(ConfigAction::WriteHalf { offset: capability + 0x0c, half: vector as u16 });
    } else {
        actions.push(ConfigAction::WriteHalf { offset: capability + 8, half: vector as u16 });
    }
    actions.push(ConfigAction::Fence);
    actions.push(ConfigAction::WriteHalf { offset: capability + 2, half: off | MSI_ENABLE });
    if masked {
        actions.push(ConfigAction::WriteWord { offset: mask_at, word: 0xffff_fffe });
    }
    assert(actions@ =~= msi_actions(capability, control, address, vector));
    Ok(actions)
}

/// Whether the control word that reads back is on, with one vector.
pub fn msi_installed(installed: u16) -> (r: Result<(), PciError>)
    ensures
        r == (if installed & (MSI_ENABLE | MSI_VECTOR_COUNT) == MSI_ENABLE {
            Ok(())
        } else {
            Err(PciError::RegisterWriteFailed)
        }),
{
    if installed & (MSI_ENABLE | MSI_VECTOR_COUNT) != MSI_ENABLE {
        return Err(PciError::RegisterWriteFailed);
    }
    Ok(())
}

/// The control word of an MSI-X capability, masked and off.
pub open spec fn msix_off(control: u16) -> u16 {
    (control | MSIX_FUNCTION_MASK) & !MSIX_ENABLE
}

/// The control word of an MSI-X capability, on and not masked.
pub open spec fn msix_on(control: u16) -> u16 {
    (control | MSIX_ENABLE) & !MSIX_FUNCTION_MASK
}

/// The control word to write before the table is filled, if the table is large
/// enough.
pub fn prepare_msix(control: u16, vector_count: usize) -> (r: Result<u16, PciError>)
    ensures
        r == (if 1 <= vector_count <= 2 && vector_count <= msix_entries(control) {
            Ok(msix_off(control))
        } else {
            Err(PciError::InterruptUnavailable)
        }),
{
    let entries: usize = (control & MSIX_TABLE_SIZE) as usize + 1;
    if vector_count == 0 || vector_count > 2 || entries < vector_count {
        return Err(PciError::InterruptUnavailable);
    }
    Ok((control | MSIX_FUNCTION_MASK) & !MSIX_ENABLE)
}

/// The first used BAR from `from` on with this register index, or the count.
pub open spec fn bar_with_index(bars: Seq<PciBar>, index: u8, from: int) -> int
    decreases bars.len() - from,
{
    if from >= bars.len() || bars[from].index == index {
        from
    } else {
        bar_with_index(bars, index, from + 1)
    }
}

/// Where the MSI-X table is, if it lies in one of the function's BARs.
pub open spec fn msix_table_of(
    descriptor: PciDescriptor,
    table: u32,
    vector_count: int,
) -> Result<u64, PciError> {
    let bars = descriptor.used_bars();
    let at = bar_with_index(bars, (table & MSIX_TABLE_BIR) as u8, 0);
    let offset = table & MSIX_TABLE_OFFSET;
    if at >= bars.len() || offset + 16 * vector_count > bars[at].length {
        Err(PciError::InvalidBar)
    } else {
        Ok((bars[at].physical_address + offset) as u64)
    }
}

/// Finds the MSI-X table. `table` is the register that says where it is.
pub fn msix_table(
    descriptor: &PciDescriptor,
    table: u32,
    vector_count: usize,
) -> (r: Result<u64, PciError>)
    requires
        descriptor.wf(),
        vector_count <= 2,
        forall|i: int|
            0 <= i < descriptor.bar_count ==> (
            #[trigger] descriptor.bars@[i]).physical_address + descriptor.bars@[i].length
                <= u64::MAX,
    ensures
        r == msix_table_of(*descriptor, table, vector_count as int),
{
    let wanted: u8 = (table & MSIX_TABLE_BIR) as u8;
    let offset: u64 = (table & MSIX_TABLE_OFFSET) as u64;
    let ghost bars = descriptor.used_bars();
    let mut i: usize = 0;
    while i < descriptor.bar_count && descriptor.bars[i].index != wanted
        invariant
            descriptor.wf(),
            i <= descriptor.bar_count,
            bars == descriptor.used_bars(),
            bar_with_index(bars, wanted, 0) == bar_with_index(bars, wanted, i as int),
        decreases descriptor.bar_count - i,
    {
        i += 1;
    }
    if i >= descriptor.bar_count {
        return Err(PciError::InvalidBar);
    }
    let bar = descriptor.bars[i];
    assert(bar == bars[i as int]);
    if offset + 16 * (vector_count as u64) > bar.length {
        return Err(PciError::InvalidBar);
    }
    Ok(bar.physical_address + offset)
}

/// The writes that fill one table entry while it is masked.
pub open spec fn entry_writes(table: u64, index: int, address: u64, vector: u8) -> Seq<MmioWrite> {
    let at = table + 16 * index;
    seq![
        MmioWrite { address: (at + 12) as u64, value: MSIX_ENTRY_MASKED },
        MmioWrite { address: at as u64, value: address as u32 },
        MmioWrite { address: (at + 4) as u64, value: (address >> 32) as u32 },
        MmioWrite { address: (at + 8) as u64, value: vector as u32 },
    ]
}

/// The writes that fill the first `n` entries.
pub open spec fn table_writes(table: u64, address: u64, vectors: Seq<u8>, n: int) -> Seq<MmioWrite>
    decreases n,
{
    if n <= 0 {
        Seq::empty()
    } else {
        table_writes(table, address, vectors, n - 1) + entry_writes(
            table,
            n - 1,
            address,
            vectors[n - 1],
        )
    }
}

/// The writes that unmask the first `n` entries.
pub open spec fn unmask_writes(table: u64, n: int) -> Seq<MmioWrite> {
    Seq::new(n as nat, |i: int| MmioWrite { address: (table + 16 * i + 12) as u64, value: 0 })
}

/// How to fill and switch on an MSI-X table: the entries first, then, behind a
/// fence, their masks, then the control word.
pub struct MsixPlan {
    pub entries: Vec<MmioWrite>,
    pub unmask: Vec<MmioWrite>,
    pub control: u16,
}

/// Plans the MSI-X table. `control` is the control word as it was at first.
pub fn enable_msix(
    table: u64,
    control: u16,
    address: u64,
    vectors: &[u8; 2],
    vector_count: usize,
) -> (r: MsixPlan)
    requires
        1 <= vector_count <= 2,
        table + 16 * vector_count <= u64::MAX,
    ensures
        r.entries@ == table_writes(table, address, vectors@, vector_count as int),
        r.unmask@ == unmask_writes(table, vector_count as int),
        r.control == msix_on(control),
{
    let mut entries: Vec<MmioWrite> = Vec::new();
    let mut unmask: Vec<MmioWrite> = Vec::new();
    let mut i: usize = 0;
    while i < vector_count
        invariant
            i <= vector_count <= 2,
            table + 16 * vector_count <= u64::MAX,
            entries@ == table_writes(table, address, vectors@, i as int),
            unmask@ == unmask_writes(table, i as int),
        decreases vector_count - i,
    {
        let at: u64 = table + 16 * (i as u64);
        let ghost before = entries@;
        entries.push(MmioWrite { address: at + 12, value: MSIX_ENTRY_MASKED });
        entries.push(MmioWrite { address: at, value: address as u32 });
        entries.push(MmioWrite { address: at + 4, value: (address >> 32) as u32 });
        entries.push(MmioWrite { address: at + 8, value: vectors[i] as u32 });
        assert(entries@ =~= before + entry_writes(table, i as int, address, vectors@[i as int]));
        unmask.push(MmioWrite { address: at + 12, value: 0 });
        assert(unmask@ =~= unmask_writes(table, i + 1));
        i += 1;
    }
    MsixPlan { entries, unmask, control: (control | MSIX_ENABLE) & !MSIX_FUNCTION_MASK }
}

/// Whether the control word that reads back is on and not masked.
pub fn msix_installed(installed: u16) -> (r: Result<(), PciError>)
    ensures
        r == (if installed & (MSIX_ENABLE | MSIX_FUNCTION_MASK) == MSIX_ENABLE {
            Ok(())
        } else {
            Err(PciError::RegisterWriteFailed)
        }),
{
    if installed & (MSIX_ENABLE | MSIX_FUNCTION_MASK) != MSIX_ENABLE {
        return Err(PciError::RegisterWriteFailed);
    }
    Ok(())
}

/// The writes that silence a function, from its two control words.
pub fn disable_interrupt(
    descriptor: &PciDescriptor,
    msix_control: u16,
    msi_control: u16,
) -> (r: Vec<ConfigAction>)
    requires
        descriptor.wf(),
    ensures
        r@ == (if descriptor.msix_capability != 0 {
            seq![
                ConfigAction::WriteHalf {
                    offset: (descriptor.msix_capability + 2) as u8,
                    half: msix_off(msix_control),
                },
            ]
        } else {
            Seq::empty()
        }) + (if descriptor.msi_capability != 0 {
            seq![
                ConfigAction::WriteHalf {
                    offset: (descriptor.msi_capability + 2) as u8,
                    half: msi_control & !MSI_ENABLE,
                },
            ]
        } else {
            Seq::empty()
        }),
{
    let mut actions: Vec<ConfigAction> = Vec::new();
    if descriptor.msix_capability != 0 {
        actions.push(
            ConfigAction::WriteHalf {
                offset: descriptor.msix_capability + 2,
                half: (msix_control | MSIX_FUNCTION_MASK) & !MSIX_ENABLE,
            },
        );
    }
    if descriptor.msi_capability != 0 {
        actions.push(
            ConfigAction::WriteHalf {
                offset: descriptor.msi_capability + 2,
                half: msi_control & !MSI_ENABLE,
            },
        );
    }
    actions
}

/// Where messages for this CPU go. The local APIC must be on, and its identifier
/// must fit in a message.
pub fn message_address(
    apic_base: u64,
    x2apic_id: u64,
    initial_apic_id: u8,
) -> (r: Result<u64, PciError>)
    ensures
        r == (if apic_base & APIC_ENABLE == 0 {
            Err(PciError::InterruptUnavailable)
        } else if apic_base & X2APIC_ENABLE != 0 {
            if x2apic_id > 0xff {
                Err(PciError::InterruptUnavailable)
            } else {
                Ok(0xfee0_0000u64 | (x2apic_id << 12))
            }
        } else {
            Ok(0xfee0_0000u64 | ((initial_apic_id as u64) << 12))
        }),
{
    if apic_base & APIC_ENABLE == 0 {
        return Err(PciError::InterruptUnavailable);
    }
    if apic_base & X2APIC_ENABLE != 0 {
        if x2apic_id > 0xff {
            return Err(PciError::InterruptUnavailable);
        }
        return Ok(0xfee0_0000u64 | (x2apic_id << 12));
    }
    Ok(0xfee0_0000u64 | ((initial_apic_id as u64) << 12))
}

/// The command with which a function is prepared to signal: it decodes memory
/// but cannot start DMA yet.
pub fn memory_command(descriptor: &PciDescriptor) -> (r: u16)
    ensures
        r == (descriptor.original_command | COMMAND_MEMORY | COMMAND_INTERRUPT_DISABLE)
            & !COMMAND_BUS_MASTER,
{
    (descriptor.original_command | COMMAND_MEMORY | COMMAND_INTERRUPT_DISABLE) & !COMMAND_BUS_MASTER
}

/// The command with which a function may start DMA.
pub fn bus_master_command(memory_command: u16) -> (r: u16)
    ensures
        r == memory_command | COMMAND_BUS_MASTER,
{
    memory_command | COMMAND_BUS_MASTER
}

/// Whether the command that reads back lets the function start DMA.
pub fn bus_master_on(command: u16) -> (r: Result<(), PciError>)
    ensures
        r == (if command & COMMAND_BUS_MASTER != 0 {
            Ok(())
        } else {
            Err(PciError::RegisterWriteFailed)
        }),
{
    if command & COMMAND_BUS_MASTER == 0 {
        return Err(PciError::RegisterWriteFailed);
    }
    Ok(())
}

/// Whether the command that reads back keeps the function from starting DMA.
pub fn bus_master_off(command: u16) -> (r: Result<(), PciError>)
    ensures
        r == (if command & COMMAND_BUS_MASTER == 0 {
            Ok(())
        } else {
            Err(PciError::RegisterWriteFailed)
        }),
{
    if command & COMMAND_BUS_MASTER != 0 {
        return Err(PciError::RegisterWriteFailed);
    }
    Ok(())
}

/// The device control word that starts a function-level reset, if the function
/// can do one.
pub fn function_level_reset(capabilities: u32, control: u16) -> (r: Option<u16>)
    ensures
        r == (if capabilities & PCIE_DEVICE_CAP_FLR == 0 {
            None
        } else {
            Some(control | PCIE_DEVICE_CONTROL_FLR)
        }),
{
    if capabilities & PCIE_DEVICE_CAP_FLR == 0 {
        return None;
    }
    Some(control | PCIE_DEVICE_CONTROL_FLR)
}

/// How many ticks of the time-stamp counter to wait after a reset: a tenth of a
/// second, or a safe number where the frequency is unknown.
pub fn reset_wait_ticks(frequency_hz: Option<u64>) -> (r: u64)
    ensures
        r == (match frequency_hz {
            Some(frequency) => frequency / 10,
            None => 1_000_000_000,
        }),
{
    match frequency_hz {
        Some(frequency) => frequency / 10,
        None => 1_000_000_000,
    }
}

/// The pending bit of a physical device vector.
pub fn pending_bit(vector: u8) -> (r: Option<u64>)
    ensures
        r == (if DEVICE_VECTOR_FIRST <= vector <= DEVICE_VECTOR_LAST {
            Some(1u64 << ((vector - DEVICE_VECTOR_FIRST) as u64))
        } else {
            None
        }),
{
    if vector < DEVICE_VECTOR_FIRST || vector > DEVICE_VECTOR_LAST {
        return None;
    }
    Some(1u64 << ((vector - DEVICE_VECTOR_FIRST) as u64))
}

/// Whether the local APIC is servicing the vector.
pub open spec fn in_service(isr: Seq<u32>, vector: int) -> bool {
    isr[vector / 32] & (1u32 << ((vector % 32) as u32)) != 0
}

/// The highest device vector that the local APIC is servicing.
pub fn active_device_vector(apic_base: u64, isr: &[u32; 8]) -> (r: Option<u8>)
    ensures
        match r {
            Some(vector) => {
                &&& apic_base & APIC_ENABLE != 0
                &&& DEVICE_VECTOR_FIRST <= vector <= DEVICE_VECTOR_LAST
                &&& in_service(isr@, vector as int)
                &&& forall|v: int|
                    vector < v <= DEVICE_VECTOR_LAST ==> !#[trigger] in_service(isr@, v)
            },
            None => apic_base & APIC_ENABLE == 0 || forall|v: int|
                DEVICE_VECTOR_FIRST <= v <= DEVICE_VECTOR_LAST ==> !#[trigger] in_service(isr@, v),
        },
{
    if apic_base & APIC_ENABLE == 0 {
        return None;
    }
    let mut next: u8 = DEVICE_VECTOR_LAST + 1;
    while next > DEVICE_VECTOR_FIRST
        invariant
            apic_base & APIC_ENABLE != 0,
            DEVICE_VECTOR_FIRST <= next <= DEVICE_VECTOR_LAST + 1,
            forall|v: int| next <= v <= DEVICE_VECTOR_LAST ==> !#[trigger] in_service(isr@, v),
        decreases next,
    {
        next -= 1;
        if isr[(next / 32) as usize] & (1u32 << ((next % 32) as u32)) != 0 {
            assert(in_service(isr@, next as int));
            return Some(next);
        }
    }
    None
}

/// Whether a write reaches the byte at `at` of the configuration space.
pub open spec fn reaches(action: ConfigAction, at: int) -> bool {
    match action {
        ConfigAction::WriteHalf { offset, .. } => offset <= at < offset + 2,
        ConfigAction::WriteWord { offset, .. } => offset <= at < offset + 4,
        ConfigAction::Fence => false,
    }
}

/// The byte that a write leaves at `at`: registers are little endian.
pub open spec fn byte_left(action: ConfigAction, at: int) -> int {
    let (offset, value) = match action {
        ConfigAction::WriteHalf { offset, half } => (offset as int, half as int),
        ConfigAction::WriteWord { offset, word } => (offset as int, word as int),
        ConfigAction::Fence => (0, 0),
    };
    if at == offset {
        value % 0x100
    } else if at == offset + 1 {
        value / 0x100 % 0x100
    } else if at == offset + 2 {
        value / 0x1_0000 % 0x100
    } else {
        value / 0x100_0000 % 0x100
    }
}

/// What the byte at `at` of the configuration space holds after the writes, if any of
/// them reached it.
pub open spec fn byte_held(actions: Seq<ConfigAction>, at: int) -> Option<int>
    decreases actions.len(),
{
    if actions.len() == 0 {
        None
    } else if reaches(actions.last(), at) {
        Some(byte_left(actions.last(), at))
    } else {
        byte_held(actions.drop_last(), at)
    }
}

/// Whether the register of two bytes at `at` holds `value` after the writes.
pub open spec fn half_holds(actions: Seq<ConfigAction>, at: int, value: int) -> bool {
    &&& byte_held(actions, at) == Some(value % 0x100)
    &&& byte_held(actions, at + 1) == Some(value / 0x100 % 0x100)
}

/// Whether the register of four bytes at `at` holds `value` after the writes.
pub open spec fn word_holds(actions: Seq<ConfigAction>, at: int, value: int) -> bool {
    &&& half_holds(actions, at, value % 0x1_0000)
    &&& half_holds(actions, at + 2, value / 0x1_0000)
}

proof fn lemma_byte_held(actions: Seq<ConfigAction>, i: int, at: int)
    requires
        0 <= i < actions.len(),
        reaches(actions[i], at),
        forall|j: int| i < j < actions.len() ==> !reaches(#[trigger] actions[j], at),
    ensures
        byte_held(actions, at) == Some(byte_left(actions[i], at)),
    decreases actions.len(),
{
    if i < actions.len() - 1 {
        assert(actions.drop_last()[i] == actions[i]);
        assert forall|j: int| i < j < actions.drop_last().len() implies !reaches(
            #[trigger] actions.drop_last()[j],
            at,
        ) by {
            assert(actions.drop_last()[j] == actions[j]);
        }
        lemma_byte_held(actions.drop_last(), i, at);
    }
}

proof fn lemma_half_held(actions: Seq<ConfigAction>, i: int, at: int, value: int)
    requires
        0 <= i < actions.len(),
        actions[i] == (ConfigAction::WriteHalf { offset: at as u8, half: value as u16 }),
        0 <= at < 0xff,
        0 <= value < 0x1_0000,
        forall|j: int|
            i < j < actions.len() ==> !reaches(#[trigger] actions[j], at) && !reaches(
                actions[j],
                at + 1,
            ),
    ensures
        half_holds(actions, at, value),
{
    lemma_byte_held(actions, i, at);
    lemma_byte_held(actions, i, at + 1);
}

proof fn lemma_word_held(actions: Seq<ConfigAction>, i: int, at: int, value: int)
    requires
        0 <= i < actions.len(),
        actions[i] == (ConfigAction::WriteWord { offset: at as u8, word: value as u32 }),
        0 <= at < 0xfd,
        0 <= value < 0x1_0000_0000,
        forall|j: int|
            i < j < actions.len() ==> !reaches(#[trigger] actions[j], at) && !reaches(
                actions[j],
                at + 1,
            ) && !reaches(actions[j], at + 2) && !reaches(actions[j], at + 3),
    ensures
        word_holds(actions, at, value),
{
    lemma_byte_held(actions, i, at);
    lemma_byte_held(actions, i, at + 1);
    lemma_byte_held(actions, i, at + 2);
    lemma_byte_held(actions, i, at + 3);
    lemma_word_bytes(value);
}

proof fn lemma_word_bytes(value: int)
    requires
        0 <= value < 0x1_0000_0000,
    ensures
        value % 0x1_0000 % 0x100 == value % 0x100,
        value % 0x1_0000 / 0x100 % 0x100 == value / 0x100 % 0x100,
        value / 0x1_0000 / 0x100 % 0x100 == value / 0x100_0000 % 0x100,
{
}

/// The message as the capability's registers hold it: the low half of the address at
/// 4; with bit 7 of the control word set, its high half at 8 and the vector at 12;
/// without, the vector at 8.
pub open spec fn message_held(
    actions: Seq<ConfigAction>,
    capability: int,
    control: u16,
    address: u64,
    vector: u8,
) -> bool {
    &&& word_holds(actions, capability + 4, (address % 0x1_0000_0000) as int)
    &&& control & 0x80 != 0 ==> word_holds(
        actions,
        capability + 8,
        (address / 0x1_0000_0000) as int,
    )
        && half_holds(actions, capability + 12, vector as int)
    &&& control & 0x80 == 0 ==> half_holds(actions, capability + 8, vector as int)
}

/// The mask register of a capability that has one (bit 8 of its control word): at 16
/// where the address has two halves, else at 12.
pub open spec fn mask_register(capability: int, control: u16) -> int {
    if control & 0x80 != 0 {
        capability + 16
    } else {
        capability + 12
    }
}

/// The control words of the two kinds of message capability, and the parts of a
/// message.
proof fn lemma_message_words(control: u16, address: u64, id: u64)
    ensures
        msi_off(control) & 0x80 == control & 0x80,
        msi_off(control) & 0x100 == control & 0x100,
        msi_off(control) % 2 == 0,
        msi_off(control) == control & 0xff8e,
        msi_off(control) | 1 == (control & 0xff8e) + 1,
        msix_off(control) == (control & 0x3fff) + 0x4000,
        msix_on(control) == (control & 0x3fff) + 0x8000,
        address as u32 == address % 0x1_0000_0000,
        (address >> 32) as u32 == address / 0x1_0000_0000,
        id <= 0xff ==> 0xfee0_0000u64 | (id << 12) == 0xfee0_0000 + id * 0x1000,
        control & 0xfffe < 0xffff,
        (control & 0xfffe) == control - control % 2,
        control & !1u16 == control & 0xfffe,
        msix_on(control) & 0x3fff == control & 0x3fff,
        msix_off(control) & 0x3fff == control & 0x3fff,
{
    assert((control & !(0x70u16 | 0x1)) & 0x80 == control & 0x80 && (control & !(0x70u16 | 0x1))
        & 0x100 == control & 0x100 && (control & !(0x70u16 | 0x1)) % 2 == 0 && (control & !(0x70u16
        | 0x1)) == control & 0xff8e && (control & !(0x70u16 | 0x1)) | 1 == (control & 0xff8e) + 1
        && (control | 0x4000) & !0x8000u16 == (control & 0x3fff) + 0x4000 && (control | 0x8000)
        & !0x4000u16 == (control & 0x3fff) + 0x8000 && address as u32 == address % 0x1_0000_0000 && (
    address >> 32) as u32 == address / 0x1_0000_0000 && (id <= 0xff ==> 0xfee0_0000u64 | (id << 12)
        == 0xfee0_0000 + id * 0x1000) && control & 0xfffe < 0xffff && (control & 0xfffe) == control
        - control % 2 && control & !1u16 == control & 0xfffe && ((control | 0x8000) & !0x4000u16)
        & 0x3fff == control & 0x3fff && ((control | 0x4000) & !0x8000u16) & 0x3fff == control & 0x3fff)
        by (bit_vector);
}

/// After the planned writes the capability's registers hold the message, and its
/// control word is the old one with one vector (bits 4 to 6 clear) and switched on
/// (bit 0). All of the message stands there before the write that switches it on, and
/// no write before that one has bit 0 set.
pub proof fn law_message_capability_holds_the_message(
    capability: u8,
    control: u16,
    address: u64,
    vector: u8,
) -> (on: int)
    requires
        capability <= 0xec,
    ensures
        message_held(
            msi_actions(capability, control, address, vector),
            capability as int,
            control,
            address,
            vector,
        ),
        half_holds(
            msi_actions(capability, control, address, vector),
            capability + 2,
            (control & 0xff8e) + 1,
        ),
        1 <= on < msi_actions(capability, control, address, vector).len(),
        message_held(
            msi_actions(capability, control, address, vector).take(on),
            capability as int,
            control,
            address,
            vector,
        ),
        msi_actions(capability, control, address, vector)[on - 1] == ConfigAction::Fence,
        msi_actions(capability, control, address, vector)[on] == (ConfigAction::WriteHalf {
            offset: (capability + 2) as u8,
            half: ((control & 0xff8e) + 1) as u16,
        }),
        msi_actions(capability, control, address, vector)[0] == (ConfigAction::WriteHalf {
            offset: (capability + 2) as u8,
            half: control & 0xff8e,
        }),
        forall|i: int|
            0 < i < on ==> !reaches(
                #[trigger] msi_actions(capability, control, address, vector)[i],
                capability + 2,
            ),
{
    lemma_message_words(control, address, 0);
    let actions = msi_actions(capability, control, address, vector);
    let c = capability as int;
    let wide = control & 0x80 != 0;
    let masked = control & 0x100 != 0;
    let head: int = if masked {
        2
    } else {
        1
    };
    let on: int = if wide {
        head + 4
    } else {
        head + 3
    };
    let before = actions.take(on);
    assert(before.len() == on);
    assert forall|i: int| 0 <= i < on implies before[i] == actions[i] by {}
    assert(actions[head] == (ConfigAction::WriteWord {
        offset: (c + 4) as u8,
        word: address as u32,
    }));
    assert(actions[on] == (ConfigAction::WriteHalf {
        offset: (c + 2) as u8,
        half: msi_off(control) | 1,
    }));
    assert(actions[on - 1] == ConfigAction::Fence);
    if wide {
        assert(actions[head + 1] == (ConfigAction::WriteWord {
            offset: (c + 8) as u8,
            word: (address >> 32) as u32,
        }));
        assert(actions[head + 2] == (ConfigAction::WriteHalf {
            offset: (c + 12) as u8,
            half: vector as u16,
        }));
    } else {
        assert(actions[head + 1] == (ConfigAction::WriteHalf {
            offset: (c + 8) as u8,
            half: vector as u16,
        }));
    }
    assert(masked ==> actions.len() == on + 2 && actions[on + 1] == (ConfigAction::WriteWord {
        offset: mask_register(c, control) as u8,
        word: 0xffff_fffe,
    }));
    assert(!masked ==> actions.len() == on + 1);
    lemma_word_held(actions, head, c + 4, (address % 0x1_0000_0000) as int);
    lemma_word_held(before, head, c + 4, (address % 0x1_0000_0000) as int);
    lemma_half_held(actions, on, c + 2, (control & 0xff8e) + 1);
    if wide {
        lemma_word_held(actions, head + 1, c + 8, (address / 0x1_0000_0000) as int);
        lemma_word_held(before, head + 1, c + 8, (address / 0x1_0000_0000) as int);
        lemma_half_held(actions, head + 2, c + 12, vector as int);
        lemma_half_held(before, head + 2, c + 12, vector as int);
    } else {
        lemma_half_held(actions, head + 1, c + 8, vector as int);
        lemma_half_held(before, head + 1, c + 8, vector as int);
    }
    on
}

/// A capability with a mask register has every vector masked before any part of the
/// message is written, until the capability is on, and then the first one open alone.
/// A capability without one has nothing written behind its vector.
pub proof fn law_vectors_stay_masked_until_the_capability_is_on(
    capability: u8,
    control: u16,
    address: u64,
    vector: u8,
) -> (on: int)
    requires
        capability <= 0xec,
    ensures
        0 < on < msi_actions(capability, control, address, vector).len(),
        msi_actions(capability, control, address, vector)[on] == (ConfigAction::WriteHalf {
            offset: (capability + 2) as u8,
            half: ((control & 0xff8e) + 1) as u16,
        }),
        control & 0x100 != 0 ==> word_holds(
            msi_actions(capability, control, address, vector),
            mask_register(capability as int, control),
            0xffff_fffe,
        ) && forall|i: int|
            2 <= i <= on ==> #[trigger] word_holds(
                msi_actions(capability, control, address, vector).take(i),
                mask_register(capability as int, control),
                0xffff_ffff,
            ),
        control & 0x100 == 0 ==> forall|i: int|
            0 <= i < msi_actions(capability, control, address, vector).len() ==> !reaches(
                #[trigger] msi_actions(capability, control, address, vector)[i],
                mask_register(capability as int, control) + 2,
            ),
{
    lemma_message_words(control, address, 0);
    let actions = msi_actions(capability, control, address, vector);
    let c = capability as int;
    let wide = control & 0x80 != 0;
    let masked = control & 0x100 != 0;
    let head: int = if masked {
        2
    } else {
        1
    };
    let on: int = if wide {
        head + 4
    } else {
        head + 3
    };
    let mask_at = mask_register(c, control);
    assert(actions[on] == (ConfigAction::WriteHalf {
        offset: (c + 2) as u8,
        half: msi_off(control) | 1,
    }));
    if masked {
        assert(actions.len() == on + 2);
        assert(actions[on + 1] == (ConfigAction::WriteWord {
            offset: mask_at as u8,
            word: 0xffff_fffe,
        }));
        assert(actions[1] == (ConfigAction::WriteWord {
            offset: mask_at as u8,
            word: 0xffff_ffff,
        }));
        lemma_word_held(actions, on + 1, mask_at, 0xffff_fffe);
        assert forall|i: int| 2 <= i <= on implies #[trigger] word_holds(
            actions.take(i),
            mask_at,
            0xffff_ffff,
        ) by {
            let before = actions.take(i);
            assert(before.len() == i);
            assert forall|j: int| 0 <= j < i implies before[j] == actions[j] by {}
            lemma_word_held(before, 1, mask_at, 0xffff_ffff);
        }
    }
    on
}

/// What the last write of a table word left there, if there was one.
pub open spec fn table_word(writes: Seq<MmioWrite>, at: int) -> Option<u32>
    decreases writes.len(),
{
    if writes.len() == 0 {
        None
    } else if writes.last().address == at {
        Some(writes.last().value)
    } else {
        table_word(writes.drop_last(), at)
    }
}

proof fn lemma_table_word(writes: Seq<MmioWrite>, i: int, at: int)
    requires
        0 <= i < writes.len(),
        writes[i].address == at,
        forall|j: int| i < j < writes.len() ==> (#[trigger] writes[j]).address != at,
    ensures
        table_word(writes, at) == Some(writes[i].value),
    decreases writes.len(),
{
    if i < writes.len() - 1 {
        assert forall|j: int| i < j < writes.drop_last().len() implies (
        #[trigger] writes.drop_last()[j]).address != at by {
            assert(writes.drop_last()[j] == writes[j]);
        }
        lemma_table_word(writes.drop_last(), i, at);
    }
}

proof fn lemma_table_writes(table: u64, address: u64, vectors: Seq<u8>, n: int)
    requires
        0 <= n,
        table + 16 * n <= u64::MAX,
    ensures
        table_writes(table, address, vectors, n).len() == 4 * n,
        forall|i: int|
            #![trigger table_writes(table, address, vectors, n)[4 * i]]
            0 <= i < n ==> table_writes(table, address, vectors, n).subrange(4 * i, 4 * i + 4)
                == entry_writes(table, i, address, vectors[i]),
        forall|k: int|
            0 <= k < 4 * n ==> #[trigger] table_writes(table, address, vectors, n)[k]
                == entry_writes(table, k / 4, address, vectors[k / 4])[k % 4],
    decreases n,
{
    if n > 0 {
        lemma_table_writes(table, address, vectors, n - 1);
        let old_writes = table_writes(table, address, vectors, n - 1);
        let writes = table_writes(table, address, vectors, n);
        assert forall|k: int| 0 <= k < 4 * n implies #[trigger] writes[k] == entry_writes(
            table,
            k / 4,
            address,
            vectors[k / 4],
        )[k % 4] by {
            if k < 4 * (n - 1) {
                assert(writes[k] == old_writes[k]);
            }
        }
        assert forall|i: int| 0 <= i < n implies writes.subrange(4 * i, 4 * i + 4)
            == entry_writes(table, i, address, vectors[i]) by {
            assert(writes.subrange(4 * i, 4 * i + 4) =~= entry_writes(
                table,
                i,
                address,
                vectors[i],
            ));
        }
    }
}

#[verifier::spinoff_prover]
#[verifier::rlimit(50)]
proof fn lemma_filled_table(
    table: u64,
    address: u64,
    vectors: Seq<u8>,
    n: int,
    i: int,
)
    requires
        0 <= i < n,
        n <= vectors.len(),
        table + 16 * n <= u64::MAX,
    ensures
        table_word(table_writes(table, address, vectors, n), table + 16 * i) == Some(
            (address % 0x1_0000_0000) as u32,
        ),
        table_word(table_writes(table, address, vectors, n), table + 16 * i + 4) == Some(
            (address / 0x1_0000_0000) as u32,
        ),
        table_word(table_writes(table, address, vectors, n), table + 16 * i + 8) == Some(
            vectors[i] as u32,
        ),
        table_word(table_writes(table, address, vectors, n), table + 16 * i + 12) == Some(1u32),
        forall|k: int|
            0 <= k < table_writes(table, address, vectors, n).len() && table + 16 * i <= (
            #[trigger] table_writes(table, address, vectors, n)[k]).address < table + 16 * i + 12
                ==> table_word(
                table_writes(table, address, vectors, n).take(k),
                table + 16 * i + 12,
            ) == Some(1u32),
{
    lemma_message_words(0, address, 0);
    lemma_table_writes(table, address, vectors, n);
    let writes = table_writes(table, address, vectors, n);
    assert forall|k: int| 0 <= k < writes.len() implies (#[trigger] writes[k]).address == table + 16
        * (k / 4) + (if k % 4 == 0 {
        12
    } else {
        4 * (k % 4) - 4
    }) by {}
    assert(4 * i / 4 == i && (4 * i + 1) / 4 == i && (4 * i + 2) / 4 == i && (4 * i + 3) / 4 == i);
    lemma_table_word(writes, 4 * i + 1, table + 16 * i);
    lemma_table_word(writes, 4 * i + 2, table + 16 * i + 4);
    lemma_table_word(writes, 4 * i + 3, table + 16 * i + 8);
    lemma_table_word(writes, 4 * i, table + 16 * i + 12);
    assert forall|k: int|
        0 <= k < writes.len() && table + 16 * i <= (#[trigger] writes[k]).address < table + 16 * i
            + 12 implies table_word(writes.take(k), table + 16 * i + 12) == Some(1u32) by {
        assert(k / 4 == i);
        let before = writes.take(k);
        assert forall|j: int| 0 <= j < k implies before[j] == writes[j] by {}
        lemma_table_word(before, 4 * i, table + 16 * i + 12);
    }
}

/// While the table is filled every entry in use is masked (bit 0 of its last word)
/// before its message is written, and the message stands in the entry's first three
/// words: the low and the high half of the address, and the vector. What opens the
/// entries afterwards touches nothing but their last words, and clears each.
#[verifier::spinoff_prover]
pub proof fn law_table_entries_hold_the_message(
    table: u64,
    address: u64,
    vectors: Seq<u8>,
    n: int,
    i: int,
)
    requires
        0 <= i < n,
        n <= vectors.len(),
        table + 16 * n <= u64::MAX,
    ensures
        table_word(table_writes(table, address, vectors, n), table + 16 * i) == Some(
            (address % 0x1_0000_0000) as u32,
        ),
        table_word(table_writes(table, address, vectors, n), table + 16 * i + 4) == Some(
            (address / 0x1_0000_0000) as u32,
        ),
        table_word(table_writes(table, address, vectors, n), table + 16 * i + 8) == Some(
            vectors[i] as u32,
        ),
        table_word(table_writes(table, address, vectors, n), table + 16 * i + 12) == Some(1u32),
        forall|k: int|
            0 <= k < table_writes(table, address, vectors, n).len() && table + 16 * i <= (
            #[trigger] table_writes(table, address, vectors, n)[k]).address < table + 16 * i + 12
                ==> table_word(
                table_writes(table, address, vectors, n).take(k),
                table + 16 * i + 12,
            ) == Some(1u32),
        table_word(unmask_writes(table, n), table + 16 * i + 12) == Some(0u32),
        forall|k: int|
            0 <= k < unmask_writes(table, n).len() ==> exists|e: int|
                0 <= e < n && (#[trigger] unmask_writes(table, n)[k]).address == #[trigger] (table
                    + 16 * e + 12),
{
    lemma_filled_table(table, address, vectors, n, i);
    let unmask = unmask_writes(table, n);
    lemma_table_word(unmask, i, table + 16 * i + 12);
    assert forall|k: int| 0 <= k < unmask.len() implies exists|e: int|
        0 <= e < n && (#[trigger] unmask[k]).address == #[trigger] (table + 16 * e + 12) by {
        assert(unmask[k].address == table + 16 * k + 12);
    }
}

/// While the table is filled the capability is masked and off (bit 14 set, bit 15
/// clear); once it is filled the capability is on and not masked. No other bit of its
/// control word changes, and whoever switches it on and off again finds it off.
pub proof fn law_table_capability_is_masked_or_on(control: u16)
    ensures
        msix_off(control) == (control & 0x3fff) + 0x4000,
        msix_on(control) == (control & 0x3fff) + 0x8000,
        msix_off(msix_on(control)) == msix_off(control),
        msix_on(msix_off(control)) == msix_on(control),
{
    lemma_message_words(control, 0, 0);
    lemma_message_words(msix_on(control), 0, 0);
    lemma_message_words(msix_off(control), 0, 0);
}

/// A table that is found lies in the BAR that the register's low three bits name, at
/// the offset of its other bits, and all its entries of sixteen bytes lie in that BAR;
/// one that is not found has no such BAR or does not fit the first one.
pub proof fn law_table_lies_in_the_bar_it_names(
    descriptor: PciDescriptor,
    table: u32,
    vector_count: int,
)
    requires
        vector_count >= 0,
    ensures
        match msix_table_of(descriptor, table, vector_count) {
            Ok(at) => exists|b: int|
                0 <= b < descriptor.used_bars().len() && (
                #[trigger] descriptor.used_bars()[b]).index == (table & 7) as u8 && (table
                    & 0xffff_fff8) + 16 * vector_count <= descriptor.used_bars()[b].length && at
                    == (descriptor.used_bars()[b].physical_address + (table & 0xffff_fff8)) as u64,
            Err(e) => e == PciError::InvalidBar && forall|b: int|
                0 <= b < descriptor.used_bars().len() && (
                #[trigger] descriptor.used_bars()[b]).index == (table & 7) as u8 && (forall|c: int|
                    0 <= c < b ==> (#[trigger] descriptor.used_bars()[c]).index != (table & 7) as u8)
                    ==> (table & 0xffff_fff8) + 16 * vector_count
                    > descriptor.used_bars()[b].length,
        },
{
    let bars = descriptor.used_bars();
    let index = (table & 7) as u8;
    lemma_bar_with_index(bars, index, 0);
    let at = bar_with_index(bars, index, 0);
    assert forall|b: int|
        0 <= b < bars.len() && (#[trigger] bars[b]).index == index && (forall|c: int|
            0 <= c < b ==> (#[trigger] bars[c]).index != index) implies b == at by {
        if at < b {
            assert(bars[at].index == index);
        }
        if b < at {
            assert(bars[b].index != index);
        }
    }
}

proof fn lemma_bar_with_index(bars: Seq<PciBar>, index: u8, from: int)
    requires
        0 <= from <= bars.len(),
    ensures
        from <= bar_with_index(bars, index, from) <= bars.len(),
        bar_with_index(bars, index, from) < bars.len() ==> bars[bar_with_index(
            bars,
            index,
            from,
        )].index == index,
        forall|b: int|
            from <= b < bar_with_index(bars, index, from) ==> (#[trigger] bars[b]).index != index,
    decreases bars.len() - from,
{
    if from < bars.len() && bars[from].index != index {
        lemma_bar_with_index(bars, index, from + 1);
    }
}

} // verus!
