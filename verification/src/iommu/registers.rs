//! The register programs that bring remapping units under control.

use vstd::prelude::*;

use super::{Error, IommuResources};
use super::tables::{CONTEXT_ADDRESS, PHYSICAL_LIMIT};

verus! {

pub const INTEL_VERSION: u64 = 0x00;

pub const INTEL_CAPABILITY: u64 = 0x08;

pub const INTEL_EXTENDED_CAPABILITY: u64 = 0x10;

pub const INTEL_GLOBAL_COMMAND: u64 = 0x18;

pub const INTEL_GLOBAL_STATUS: u64 = 0x1c;

pub const INTEL_ROOT_TABLE_ADDRESS: u64 = 0x20;

pub const INTEL_CONTEXT_COMMAND: u64 = 0x28;

pub const INTEL_FAULT_STATUS: u64 = 0x34;

pub const INTEL_PROTECTED_MEMORY_ENABLE: u64 = 0x64;

pub const INTEL_TRANSLATION_ENABLE: u32 = 0x8000_0000;

pub const INTEL_SET_ROOT_POINTER: u32 = 0x4000_0000;

pub const INTEL_WRITE_BUFFER_FLUSH: u32 = 0x0800_0000;

pub const INTEL_QUEUED_INVALIDATION_ENABLE: u32 = 0x0400_0000;

pub const INTEL_INTERRUPT_REMAP_ENABLE: u32 = 0x0200_0000;

pub const INTEL_PROTECTED_MEMORY_ENABLED: u32 = 0x8000_0000;

pub const INTEL_PROTECTED_MEMORY_STATUS: u32 = 1;

pub const INTEL_CAPABILITY_PROTECTED_MEMORY: u64 = 0x60;

pub const INTEL_CAPABILITY_WRITE_BUFFER_FLUSH: u64 = 0x10;

pub const INTEL_INVALIDATE_CONTEXT: u64 = 0x8000_0000_0000_0000;

pub const INTEL_CONTEXT_GLOBAL: u64 = 0x2000_0000_0000_0000;

pub const INTEL_INVALIDATE_IOTLB: u64 = 0x8000_0000_0000_0000;

pub const INTEL_IOTLB_GLOBAL: u64 = 0x1000_0000_0000_0000;

pub const AMD_DEVICE_TABLE_BASE: u64 = 0x00;

pub const AMD_COMMAND_BUFFER_BASE: u64 = 0x08;

pub const AMD_CONTROL: u64 = 0x18;

pub const AMD_COMMAND_BUFFER_HEAD: u64 = 0x2000;

pub const AMD_COMMAND_BUFFER_TAIL: u64 = 0x2008;

pub const AMD_IOMMU_ENABLE: u64 = 1;

pub const AMD_COMMAND_BUFFER_ENABLE: u64 = 0x1000;

pub const AMD_DEVICE_TABLE_SEGMENT_ENABLE: u64 = 0x1c_0000_0000;

/// The number of device-table pages, less one.
pub const AMD_DEVICE_TABLE_SIZE: u64 = 511;

pub const AMD_COMMAND_BUFFER_SIZE: usize = 0x2000;

pub const AMD_COMMAND_BUFFER_ENCODING: u64 = 0x0900_0000_0000_0000;

/// The base and the size of the device table in its register.
pub const AMD_DEVICE_TABLE_MASK: u64 = 0x000f_ffff_ffff_f1ff;

/// The base and the size of the command buffer in its register.
pub const AMD_COMMAND_BUFFER_MASK: u64 = 0x0fff_ffff_ffff_f000;

pub const REGISTER_WAIT_LIMIT: usize = 1_000_000;

pub const INTEL_ENABLE_WAIT_LIMIT: usize = 10_000;

#[derive(Clone, Copy, Debug, PartialEq, Eq, Structural)]
pub enum IntelTransitionStage {
    Tables,
    Disable,
    WriteBuffer,
    Root,
    Context,
    Iotlb,
    Enable { global_status: u32, fault_status: u32, root_table: u64 },
    ProtectedMemory,
}

#[derive(Clone, Copy, Debug, PartialEq, Eq, Structural)]
pub struct IntelRegisterSnapshot {
    pub global_status: u32,
    pub fault_status: u32,
    pub root_table: u64,
}

/// One access to the registers of a unit, at an offset from their base.
#[derive(Clone, Copy, Debug, PartialEq, Eq, Structural)]
pub enum RegisterOp {
    /// Report that a stage begins.
    Report(IntelTransitionStage),
    /// Report the last stage with what the registers hold.
    ReportEnable,
    Write32 { offset: u64, command: u32 },
    Write64 { offset: u64, word: u64 },
    /// Clear bits and leave the others.
    Clear32 { offset: u64, bits: u32 },
    /// Read until a bit of the mask is set, or none is: at most `limit` times.
    Await32 { offset: u64, bits: u32, set: bool, limit: usize },
    /// Read until no bit of the mask is set.
    Await64 { offset: u64, mask: u64 },
    /// Read once; the masked value must be this one.
    Expect64 { offset: u64, mask: u64, word: u64 },
    /// Make table writes visible to the unit.
    Fence,
    /// Give up.
    Fail(Error),
}

impl RegisterOp {
    /// What has gone wrong if the access does not come out as it should.
    pub fn error(&self) -> (r: Option<Error>)
        ensures
            r == (match *self {
                RegisterOp::Await32 { .. } => Some(Error::CommandTimeout),
                RegisterOp::Await64 { .. } => Some(Error::CommandTimeout),
                RegisterOp::Expect64 { .. } => Some(Error::RegisterWriteFailed),
                RegisterOp::Fail(error) => Some(error),
                _ => None,
            }),
    {
        match *self {
            RegisterOp::Await32 { .. } => Some(Error::CommandTimeout),
            RegisterOp::Await64 { .. } => Some(Error::CommandTimeout),
            RegisterOp::Expect64 { .. } => Some(Error::RegisterWriteFailed),
            RegisterOp::Fail(error) => Some(error),
            _ => None,
        }
    }

    /// Whether a value that was read is the one that the access waits for.
    pub fn is_met(&self, value: u64) -> (r: bool)
        ensures
            r == (match *self {
                RegisterOp::Await32 { bits, set, .. } => (value & bits as u64 != 0) == set,
                RegisterOp::Await64 { mask, .. } => value & mask == 0,
                RegisterOp::Expect64 { mask, word, .. } => value & mask == word,
                RegisterOp::Fail(_) => false,
                _ => true,
            }),
    {
        match *self {
            RegisterOp::Await32 { bits, set, .. } => (value & bits as u64 != 0) == set,
            RegisterOp::Await64 { mask, .. } => value & mask == 0,
            RegisterOp::Expect64 { mask, word, .. } => value & mask == word,
            RegisterOp::Fail(_) => false,
            _ => true,
        }
    }

    /// How many times a register is read before the access has failed.
    pub fn read_limit(&self) -> (r: usize)
        ensures
            r == (match *self {
                RegisterOp::Await32 { limit, .. } => limit,
                RegisterOp::Await64 { .. } => REGISTER_WAIT_LIMIT,
                RegisterOp::Expect64 { .. } => 1,
                _ => 0,
            }),
    {
        match *self {
            RegisterOp::Await32 { limit, .. } => limit,
            RegisterOp::Await64 { .. } => REGISTER_WAIT_LIMIT,
            RegisterOp::Expect64 { .. } => 1,
            _ => 0,
        }
    }
}

/// The register of the status bits, until they are as wanted.
pub open spec fn await_status(bits: u32, set: bool) -> RegisterOp {
    RegisterOp::Await32 { offset: INTEL_GLOBAL_STATUS, bits, set, limit: REGISTER_WAIT_LIMIT }
}

pub open spec fn global_command(command: u32) -> RegisterOp {
    RegisterOp::Write32 { offset: INTEL_GLOBAL_COMMAND, command }
}

/// The accesses that flush the write buffer of a unit that has one.
pub open spec fn flush_ops(capability: u64, active_commands: u32) -> Seq<RegisterOp> {
    if capability & INTEL_CAPABILITY_WRITE_BUFFER_FLUSH == 0 {
        Seq::empty()
    } else {
        seq![
            RegisterOp::Report(IntelTransitionStage::WriteBuffer),
            global_command(active_commands | INTEL_WRITE_BUFFER_FLUSH),
            await_status(INTEL_WRITE_BUFFER_FLUSH, false),
        ]
    }
}

/// Where the registers that invalidate the translation cache are.
pub open spec fn iotlb_offset(extended: u64) -> int {
    extended / 0x100 % 0x400 * 16
}

/// The accesses that invalidate what a unit has cached.
pub open spec fn invalidate_ops(extended: u64) -> Seq<RegisterOp> {
    let command = (iotlb_offset(extended) + 8) as u64;
    seq![
        RegisterOp::Report(IntelTransitionStage::Context),
        RegisterOp::Write64 {
            offset: INTEL_CONTEXT_COMMAND,
            word: INTEL_INVALIDATE_CONTEXT | INTEL_CONTEXT_GLOBAL,
        },
        RegisterOp::Await64 { offset: INTEL_CONTEXT_COMMAND, mask: INTEL_INVALIDATE_CONTEXT },
    ] + (if iotlb_offset(extended) == 0 {
        seq![RegisterOp::Fail(Error::UnsupportedHardware)]
    } else {
        seq![
            RegisterOp::Report(IntelTransitionStage::Iotlb),
            RegisterOp::Write64 {
                offset: command,
                word: INTEL_INVALIDATE_IOTLB | INTEL_IOTLB_GLOBAL,
            },
            RegisterOp::Await64 { offset: command, mask: INTEL_INVALIDATE_IOTLB },
        ]
    })
}

/// The accesses that open protected memory on a unit that has some.
pub open spec fn protected_memory_ops(capability: u64) -> Seq<RegisterOp> {
    if capability & INTEL_CAPABILITY_PROTECTED_MEMORY == 0 {
        Seq::empty()
    } else {
        seq![
            RegisterOp::Report(IntelTransitionStage::ProtectedMemory),
            RegisterOp::Clear32 {
                offset: INTEL_PROTECTED_MEMORY_ENABLE,
                bits: INTEL_PROTECTED_MEMORY_ENABLED,
            },
            RegisterOp::Await32 {
                offset: INTEL_PROTECTED_MEMORY_ENABLE,
                bits: INTEL_PROTECTED_MEMORY_STATUS,
                set: false,
                limit: REGISTER_WAIT_LIMIT,
            },
        ]
    }
}

/// The accesses that install a root table.
pub open spec fn root_ops(root_table: u64, active_commands: u32) -> Seq<RegisterOp> {
    seq![
        RegisterOp::Report(IntelTransitionStage::Root),
        RegisterOp::Write64 { offset: INTEL_ROOT_TABLE_ADDRESS, word: root_table },
        RegisterOp::Expect64 {
            offset: INTEL_ROOT_TABLE_ADDRESS,
            mask: CONTEXT_ADDRESS,
            word: root_table,
        },
        RegisterOp::Fence,
        global_command(active_commands | INTEL_SET_ROOT_POINTER),
        await_status(INTEL_SET_ROOT_POINTER, true),
    ]
}

/// The program that takes a unit over from a stopped state.
pub open spec fn enable_ops(root_table: u64, capability: u64, extended: u64) -> Seq<RegisterOp> {
    seq![
        RegisterOp::Report(IntelTransitionStage::Disable),
        global_command(0),
        await_status(INTEL_TRANSLATION_ENABLE, false),
    ] + flush_ops(capability, 0) + root_ops(root_table, 0) + invalidate_ops(extended) + seq![
        RegisterOp::ReportEnable,
        global_command(INTEL_TRANSLATION_ENABLE),
        RegisterOp::Await32 {
            offset: INTEL_GLOBAL_STATUS,
            bits: INTEL_TRANSLATION_ENABLE,
            set: true,
            limit: INTEL_ENABLE_WAIT_LIMIT,
        },
    ] + protected_memory_ops(capability)
}

/// The program that takes a unit over while it translates.
pub open spec fn replace_ops(root_table: u64, capability: u64, extended: u64) -> Seq<RegisterOp> {
    seq![
        RegisterOp::Report(IntelTransitionStage::Disable),
        global_command(INTEL_TRANSLATION_ENABLE),
        await_status(INTEL_QUEUED_INVALIDATION_ENABLE, false),
        await_status(INTEL_INTERRUPT_REMAP_ENABLE, false),
    ] + flush_ops(capability, INTEL_TRANSLATION_ENABLE) + root_ops(
        root_table,
        INTEL_TRANSLATION_ENABLE,
    ) + invalidate_ops(extended) + protected_memory_ops(capability)
}

/// Legacy translation needs a 48-bit guest address width.
pub open spec fn supports_translation(version: u32, capability: u64) -> bool {
    version != 0 && (capability >> 8) & 4 != 0
}

/// Checks that a unit can use the tables at `root_table`.
pub fn check_intel_unit(root_table: u64, version: u32, capability: u64) -> (r: Result<(), Error>)
    ensures
        r == (if root_table >= PHYSICAL_LIMIT {
            Err(Error::InvalidResources)
        } else if !supports_translation(version, capability) {
            Err(Error::UnsupportedHardware)
        } else {
            Ok(())
        }),
{
    if root_table >= PHYSICAL_LIMIT {
        return Err(Error::InvalidResources);
    }
    if version == 0 || (capability >> 8) & 4 == 0 {
        return Err(Error::UnsupportedHardware);
    }
    Ok(())
}

fn push_command(ops: &mut Vec<RegisterOp>, command: u32)
    ensures
        final(ops)@ == old(ops)@.push(global_command(command)),
{
    ops.push(RegisterOp::Write32 { offset: INTEL_GLOBAL_COMMAND, command });
}

fn push_await(ops: &mut Vec<RegisterOp>, bits: u32, set: bool)
    ensures
        final(ops)@ == old(ops)@.push(await_status(bits, set)),
{
    ops.push(
        RegisterOp::Await32 { offset: INTEL_GLOBAL_STATUS, bits, set, limit: REGISTER_WAIT_LIMIT },
    );
}

fn flush_intel_write_buffer(ops: &mut Vec<RegisterOp>, capability: u64, active_commands: u32)
    ensures
        final(ops)@ == old(ops)@ + flush_ops(capability, active_commands),
{
    if capability & INTEL_CAPABILITY_WRITE_BUFFER_FLUSH == 0 {
        assert(ops@ =~= old(ops)@ + flush_ops(capability, active_commands));
        return;
    }
    ops.push(RegisterOp::Report(IntelTransitionStage::WriteBuffer));
    push_command(ops, active_commands | INTEL_WRITE_BUFFER_FLUSH);
    push_await(ops, INTEL_WRITE_BUFFER_FLUSH, false);
    assert(ops@ =~= old(ops)@ + flush_ops(capability, active_commands));
}

fn disable_intel_protected_memory(ops: &mut Vec<RegisterOp>, capability: u64)
    ensures
        final(ops)@ == old(ops)@ + protected_memory_ops(capability),
{
    if capability & INTEL_CAPABILITY_PROTECTED_MEMORY == 0 {
        assert(ops@ =~= old(ops)@ + protected_memory_ops(capability));
        return;
    }
    ops.push(RegisterOp::Report(IntelTransitionStage::ProtectedMemory));
    ops.push(
        RegisterOp::Clear32 {
            offset: INTEL_PROTECTED_MEMORY_ENABLE,
            bits: INTEL_PROTECTED_MEMORY_ENABLED,
        },
    );
    ops.push(
        RegisterOp::Await32 {
            offset: INTEL_PROTECTED_MEMORY_ENABLE,
            bits: INTEL_PROTECTED_MEMORY_STATUS,
            set: false,
            limit: REGISTER_WAIT_LIMIT,
        },
    );
    assert(ops@ =~= old(ops)@ + protected_memory_ops(capability));
}

fn push_invalidation(ops: &mut Vec<RegisterOp>, extended: u64)
    ensures
        final(ops)@ == old(ops)@ + invalidate_ops(extended),
{
    ops.push(RegisterOp::Report(IntelTransitionStage::Context));
    ops.push(
        RegisterOp::Write64 {
            offset: INTEL_CONTEXT_COMMAND,
            word: INTEL_INVALIDATE_CONTEXT | INTEL_CONTEXT_GLOBAL,
        },
    );
    ops.push(
        RegisterOp::Await64 { offset: INTEL_CONTEXT_COMMAND, mask: INTEL_INVALIDATE_CONTEXT },
    );
    let offset: u64 = extended / 0x100 % 0x400 * 16;
    if offset == 0 {
        ops.push(RegisterOp::Fail(Error::UnsupportedHardware));
        assert(ops@ =~= old(ops)@ + invalidate_ops(extended));
        return;
    }
    let command: u64 = offset + 8;
    ops.push(RegisterOp::Report(IntelTransitionStage::Iotlb));
    ops.push(
        RegisterOp::Write64 { offset: command, word: INTEL_INVALIDATE_IOTLB | INTEL_IOTLB_GLOBAL },
    );
    ops.push(RegisterOp::Await64 { offset: command, mask: INTEL_INVALIDATE_IOTLB });
    assert(ops@ =~= old(ops)@ + invalidate_ops(extended));
}

/// The program that invalidates what a unit has cached.
pub fn invalidate_intel_caches(extended: u64) -> (r: Vec<RegisterOp>)
    ensures
        r@ == invalidate_ops(extended),
{
    let mut ops: Vec<RegisterOp> = Vec::new();
    push_invalidation(&mut ops, extended);
    assert(ops@ =~= invalidate_ops(extended));
    ops
}

fn push_root(ops: &mut Vec<RegisterOp>, root_table: u64, active_commands: u32)
    ensures
        final(ops)@ == old(ops)@ + root_ops(root_table, active_commands),
{
    ops.push(RegisterOp::Report(IntelTransitionStage::Root));
    ops.push(RegisterOp::Write64 { offset: INTEL_ROOT_TABLE_ADDRESS, word: root_table });
    ops.push(
        RegisterOp::Expect64 {
            offset: INTEL_ROOT_TABLE_ADDRESS,
            mask: CONTEXT_ADDRESS,
            word: root_table,
        },
    );
    ops.push(RegisterOp::Fence);
    push_command(ops, active_commands | INTEL_SET_ROOT_POINTER);
    push_await(ops, INTEL_SET_ROOT_POINTER, true);
    assert(ops@ =~= old(ops)@ + root_ops(root_table, active_commands));
}

/// The program that takes a unit over from a stopped state. The tables at
/// `root_table` must have been built.
pub fn enable_intel_protection(
    root_table: u64,
    capability: u64,
    extended: u64,
) -> (r: Vec<RegisterOp>)
    ensures
        r@ == enable_ops(root_table, capability, extended),
{
    let mut ops: Vec<RegisterOp> = Vec::new();
    ops.push(RegisterOp::Report(IntelTransitionStage::Disable));
    push_command(&mut ops, 0);
    push_await(&mut ops, INTEL_TRANSLATION_ENABLE, false);
    flush_intel_write_buffer(&mut ops, capability, 0);
    push_root(&mut ops, root_table, 0);
    push_invalidation(&mut ops, extended);
    let ghost before = ops@;
    ops.push(RegisterOp::ReportEnable);
    push_command(&mut ops, INTEL_TRANSLATION_ENABLE);
    ops.push(
        RegisterOp::Await32 {
            offset: INTEL_GLOBAL_STATUS,
            bits: INTEL_TRANSLATION_ENABLE,
            set: true,
            limit: INTEL_ENABLE_WAIT_LIMIT,
        },
    );
    assert(ops@ =~= before + seq![
        RegisterOp::ReportEnable,
        global_command(INTEL_TRANSLATION_ENABLE),
        RegisterOp::Await32 {
            offset: INTEL_GLOBAL_STATUS,
            bits: INTEL_TRANSLATION_ENABLE,
            set: true,
            limit: INTEL_ENABLE_WAIT_LIMIT,
        },
    ]);
    assert(before =~= seq![
        RegisterOp::Report(IntelTransitionStage::Disable),
        global_command(0),
        await_status(INTEL_TRANSLATION_ENABLE, false),
    ] + flush_ops(capability, 0) + root_ops(root_table, 0) + invalidate_ops(extended));
    disable_intel_protected_memory(&mut ops, capability);
    ops
}

/// The program that takes a unit over while it translates. Firmware may have
/// left queued invalidation and interrupt remapping active: both are stopped,
/// and translation stays enabled throughout.
pub fn replace_intel_protection(
    root_table: u64,
    capability: u64,
    extended: u64,
) -> (r: Vec<RegisterOp>)
    ensures
        r@ == replace_ops(root_table, capability, extended),
{
    let mut ops: Vec<RegisterOp> = Vec::new();
    ops.push(RegisterOp::Report(IntelTransitionStage::Disable));
    push_command(&mut ops, INTEL_TRANSLATION_ENABLE);
    push_await(&mut ops, INTEL_QUEUED_INVALIDATION_ENABLE, false);
    push_await(&mut ops, INTEL_INTERRUPT_REMAP_ENABLE, false);
    flush_intel_write_buffer(&mut ops, capability, INTEL_TRANSLATION_ENABLE);
    push_root(&mut ops, root_table, INTEL_TRANSLATION_ENABLE);
    push_invalidation(&mut ops, extended);
    disable_intel_protected_memory(&mut ops, capability);
    assert(ops@ =~= replace_ops(root_table, capability, extended));
    ops
}

/// The program that takes over a unit which firmware has left in this state: one that
/// translates is replaced, any other is enabled anew.
pub fn take_over_intel_unit(
    status: u32,
    root_table: u64,
    capability: u64,
    extended: u64,
) -> (r: Vec<RegisterOp>)
    ensures
        r@ == (if status & INTEL_TRANSLATION_ENABLE != 0 {
            replace_ops(root_table, capability, extended)
        } else {
            enable_ops(root_table, capability, extended)
        }),
{
    if status & INTEL_TRANSLATION_ENABLE != 0 {
        replace_intel_protection(root_table, capability, extended)
    } else {
        enable_intel_protection(root_table, capability, extended)
    }
}

/// Whether a global command keeps translation enabled.
pub open spec fn keeps_translation(op: RegisterOp) -> bool {
    match op {
        RegisterOp::Write32 { offset, command } => offset == INTEL_GLOBAL_COMMAND ==> command
            & INTEL_TRANSLATION_ENABLE != 0,
        _ => true,
    }
}

/// A unit that is taken over while it translates never stops translating.
pub proof fn law_replacement_keeps_translation(
    root_table: u64,
    capability: u64,
    extended: u64,
    i: int,
)
    requires
        0 <= i < replace_ops(root_table, capability, extended).len(),
    ensures
        keeps_translation(replace_ops(root_table, capability, extended)[i]),
{
    let te = INTEL_TRANSLATION_ENABLE;
    lemma_command_words();
    let flush = flush_ops(capability, te);
    let root = root_ops(root_table, te);
    let invalidate = invalidate_ops(extended);
    let protect = protected_memory_ops(capability);
    assert(forall|k: int| 0 <= k < flush.len() ==> keeps_translation(#[trigger] flush[k]));
    assert(forall|k: int| 0 <= k < root.len() ==> keeps_translation(#[trigger] root[k]));
    assert(forall|k: int|
        0 <= k < invalidate.len() ==> keeps_translation(#[trigger] invalidate[k]));
    assert(forall|k: int| 0 <= k < protect.len() ==> keeps_translation(#[trigger] protect[k]));
}

/// A unit starts to translate only after its root table was installed: in the
/// program that takes it over, the command that enables translation comes after
/// the one that sets the root pointer, and none enables it before.
pub proof fn law_translation_starts_after_the_root_is_set(
    root_table: u64,
    capability: u64,
    extended: u64,
    i: int,
)
    requires
        0 <= i < enable_ops(root_table, capability, extended).len(),
        match enable_ops(root_table, capability, extended)[i] {
            RegisterOp::Write32 { offset, command } => offset == INTEL_GLOBAL_COMMAND && command
                & INTEL_TRANSLATION_ENABLE != 0,
            _ => false,
        },
    ensures
        exists|j: int|
            0 <= j < i && #[trigger] enable_ops(root_table, capability, extended)[j]
                == global_command(INTEL_SET_ROOT_POINTER),
{
    lemma_command_words();
    let ops = enable_ops(root_table, capability, extended);
    let flush = flush_ops(capability, 0);
    let root = root_ops(root_table, 0);
    let j = (3 + flush.len() + 4) as int;
    assert(ops[j] == root[4]);
    if i < 3 + flush.len() + 6 {
        if 3 <= i < 3 + flush.len() {
            assert(ops[i] == flush[i - 3]);
        } else if i >= 3 {
            assert(ops[i] == root[i - 3 - flush.len()]);
        }
    }
}

/// The program that takes over a unit found in this state.
pub open spec fn take_over_ops(
    status: u32,
    root_table: u64,
    capability: u64,
    extended: u64,
) -> Seq<RegisterOp> {
    if status & INTEL_TRANSLATION_ENABLE != 0 {
        replace_ops(root_table, capability, extended)
    } else {
        enable_ops(root_table, capability, extended)
    }
}

/// Where the two invalidations stand in a program: the word written to the context
/// command register and the wait for it, then the word written to the translation
/// cache's command register and the wait for that.
pub open spec fn invalidates_at(ops: Seq<RegisterOp>, command: int, at: (int, int, int, int)) -> bool {
    &&& 0 <= at.0 < at.1 < at.2 < at.3 < ops.len()
    &&& ops[at.0] == (RegisterOp::Write64 { offset: 0x28, word: 0xa000_0000_0000_0000 })
    &&& ops[at.1] == (RegisterOp::Await64 { offset: 0x28, mask: 0x8000_0000_0000_0000 })
    &&& ops[at.2] == (RegisterOp::Write64 { offset: command as u64, word: 0x9000_0000_0000_0000 })
    &&& ops[at.3] == (RegisterOp::Await64 { offset: command as u64, mask: 0x8000_0000_0000_0000 })
}

/// On a unit whose extended capabilities place the translation cache's registers
/// (sixteen times bits 8 to 17), invalidating writes the global context command (bits
/// 63 and 61) and waits for bit 63 to clear, and then writes the global translation
/// command (bits 63 and 60) eight bytes into those registers and waits for bit 63
/// there; nothing fails on the way. On any other unit the program ends in a failure.
pub proof fn law_invalidation_reaches_both_caches(extended: u64) -> (at: (int, int, int, int))
    ensures
        extended / 0x100 % 0x400 != 0 ==> invalidates_at(
            invalidate_ops(extended),
            16 * (extended / 0x100 % 0x400) + 8,
            at,
        ),
        extended / 0x100 % 0x400 != 0 ==> forall|i: int|
            0 <= i < invalidate_ops(extended).len() ==> !(#[trigger] invalidate_ops(
                extended,
            )[i] is Fail),
        extended / 0x100 % 0x400 == 0 ==> invalidate_ops(extended).len() > 0 && invalidate_ops(
            extended,
        ).last() == RegisterOp::Fail(Error::UnsupportedHardware),
{
    lemma_command_words();
    (1int, 2int, 4int, 5int)
}

/// The words that the programs write, bit by bit.
proof fn lemma_command_words()
    ensures
        INTEL_INVALIDATE_CONTEXT | INTEL_CONTEXT_GLOBAL == 0xa000_0000_0000_0000,
        INTEL_INVALIDATE_IOTLB | INTEL_IOTLB_GLOBAL == 0x9000_0000_0000_0000,
        0u32 | INTEL_SET_ROOT_POINTER == 0x4000_0000,
        INTEL_TRANSLATION_ENABLE | INTEL_SET_ROOT_POINTER == 0xc000_0000,
        0u32 | INTEL_WRITE_BUFFER_FLUSH == 0x0800_0000,
        INTEL_TRANSLATION_ENABLE | INTEL_WRITE_BUFFER_FLUSH == 0x8800_0000,
        0u32 & 0x8000_0000 == 0,
        0x0800_0000u32 & 0x8000_0000 == 0,
        0x4000_0000u32 & 0x8000_0000 == 0,
        0x8000_0000u32 & 0x8000_0000 != 0,
        0x8800_0000u32 & 0x8000_0000 != 0,
        0xc000_0000u32 & 0x8000_0000 != 0,
        0u32 & 0x0800_0000 == 0,
        0x8000_0000u32 & 0x0800_0000 == 0,
        0x4000_0000u32 & 0x0800_0000 == 0,
        0xc000_0000u32 & 0x0800_0000 == 0,
{
    assert(0x8000_0000_0000_0000u64 | 0x2000_0000_0000_0000 == 0xa000_0000_0000_0000
        && 0x8000_0000_0000_0000u64 | 0x1000_0000_0000_0000 == 0x9000_0000_0000_0000 && 0u32
        | 0x4000_0000 == 0x4000_0000 && 0x8000_0000u32 | 0x4000_0000 == 0xc000_0000 && 0u32
        | 0x0800_0000 == 0x0800_0000 && 0x8000_0000u32 | 0x0800_0000 == 0x8800_0000 && 0u32
        & 0x8000_0000 == 0 && 0x0800_0000u32 & 0x8000_0000 == 0 && 0x4000_0000u32 & 0x8000_0000 == 0
        && 0x8000_0000u32 & 0x8000_0000 != 0 && 0x8800_0000u32 & 0x8000_0000 != 0 && 0xc000_0000u32
        & 0x8000_0000 != 0 && 0u32 & 0x0800_0000 == 0 && 0x8000_0000u32 & 0x0800_0000 == 0
        && 0x4000_0000u32 & 0x0800_0000 == 0 && 0xc000_0000u32 & 0x0800_0000 == 0)
        by (bit_vector);
}

/// What the unit's command register holds of translation while it is taken over.
pub open spec fn running_commands(status: u32) -> u32 {
    if status & 0x8000_0000 != 0 {
        0x8000_0000
    } else {
        0
    }
}

/// How a root table is installed: its address is written to the root register at 0x20
/// and read back from there, table writes are fenced, the command to set the root
/// pointer (bit 30) goes to the command register at 0x18, and status bit 30 is awaited
/// at 0x1c. `translation` is bit 31, which the command leaves as it was.
pub open spec fn installs_root_at(
    ops: Seq<RegisterOp>,
    root_table: u64,
    translation: u32,
    at: (int, int, int, int, int),
) -> bool {
    &&& 0 <= at.0 < at.1 < at.2 < at.3 < at.4 < ops.len()
    &&& ops[at.0] == (RegisterOp::Write64 { offset: 0x20, word: root_table })
    &&& ops[at.1] == (RegisterOp::Expect64 {
        offset: 0x20,
        mask: 0xffff_ffff_ffff_f000,
        word: root_table,
    })
    &&& ops[at.2] == RegisterOp::Fence
    &&& ops[at.3] == (RegisterOp::Write32 {
        offset: 0x18,
        command: (0x4000_0000 + translation) as u32,
    })
    &&& ops[at.4] == (RegisterOp::Await32 {
        offset: 0x1c,
        bits: 0x4000_0000,
        set: true,
        limit: 1_000_000,
    })
}

/// Whoever takes a unit over installs the new root table first and invalidates both
/// caches after the unit has set its root pointer, so that no entry of the old tables
/// is used with the new ones; no other address is ever written to the root register.
pub proof fn law_take_over_invalidates_after_the_root_is_set(
    status: u32,
    root_table: u64,
    capability: u64,
    extended: u64,
) -> (at: ((int, int, int, int, int), (int, int, int, int)))
    requires
        extended / 0x100 % 0x400 != 0,
    ensures
        installs_root_at(
            take_over_ops(status, root_table, capability, extended),
            root_table,
            running_commands(status),
            at.0,
        ),
        invalidates_at(
            take_over_ops(status, root_table, capability, extended),
            16 * (extended / 0x100 % 0x400) + 8,
            at.1,
        ),
        at.0.4 < at.1.0,
        forall|i: int, word: u64|
            0 <= i < take_over_ops(status, root_table, capability, extended).len()
                && #[trigger] take_over_ops(status, root_table, capability, extended)[i] == (
            #[trigger] root_write(word)) ==> word == root_table,
{
    lemma_command_words();
    let ops = take_over_ops(status, root_table, capability, extended);
    let translation = running_commands(status);
    let flush = flush_ops(capability, translation);
    let root = root_ops(root_table, translation);
    let invalidate = invalidate_ops(extended);
    let head: int = if status & 0x8000_0000 != 0 {
        4
    } else {
        3
    };
    let first = head + flush.len();
    assert forall|k: int| 0 <= k < flush.len() implies ops[head + k] == flush[k] by {}
    assert forall|k: int| 0 <= k < 6 implies ops[first + k] == root[k] by {}
    assert forall|k: int| 0 <= k < invalidate.len() implies ops[first + 6 + k] == invalidate[k] by {
    }
    assert(ops[first + 1] == root[1] && ops[first + 2] == root[2] && ops[first + 3] == root[3]
        && ops[first + 4] == root[4] && ops[first + 5] == root[5]);
    assert(ops[first + 7] == invalidate[1] && ops[first + 8] == invalidate[2] && ops[first + 10]
        == invalidate[4] && ops[first + 11] == invalidate[5]);
    assert forall|i: int, word: u64|
        0 <= i < ops.len() && #[trigger] ops[i] == (#[trigger] root_write(
            word,
        )) implies word == root_table by {
        if i < head {
        } else if i < first {
            assert(ops[i] == flush[i - head]);
        } else if i < first + 6 {
            assert(ops[i] == root[i - first]);
        } else if i < first + 12 {
            assert(ops[i] == invalidate[i - first - 6]);
        }
    }
    (
        (first + 1, first + 2, first + 3, first + 4, first + 5),
        (first + 7, first + 8, first + 10, first + 11),
    )
}

/// A write of the root register.
pub open spec fn root_write(word: u64) -> RegisterOp {
    RegisterOp::Write64 { offset: 0x20, word }
}

pub open spec fn amd_stop_ops() -> Seq<RegisterOp> {
    seq![
        RegisterOp::Write64 { offset: AMD_CONTROL, word: 0 },
        RegisterOp::Expect64 {
            offset: AMD_CONTROL,
            mask: AMD_IOMMU_ENABLE | AMD_DEVICE_TABLE_SEGMENT_ENABLE,
            word: 0,
        },
    ]
}

/// The program that denies every requester.
pub open spec fn amd_deny_all_ops(device_table: u64) -> Seq<RegisterOp> {
    let table = device_table | AMD_DEVICE_TABLE_SIZE;
    amd_stop_ops() + seq![
        RegisterOp::Write64 { offset: AMD_DEVICE_TABLE_BASE, word: table },
        RegisterOp::Fence,
        RegisterOp::Expect64 {
            offset: AMD_DEVICE_TABLE_BASE,
            mask: AMD_DEVICE_TABLE_MASK,
            word: table,
        },
        RegisterOp::Write64 { offset: AMD_CONTROL, word: AMD_IOMMU_ENABLE },
        RegisterOp::Expect64 {
            offset: AMD_CONTROL,
            mask: AMD_IOMMU_ENABLE,
            word: AMD_IOMMU_ENABLE,
        },
    ]
}

/// The program that installs a unit's device table and command buffer.
pub open spec fn amd_protection_ops(device_table: u64, command_buffer: u64) -> Seq<RegisterOp> {
    let table = device_table | AMD_DEVICE_TABLE_SIZE;
    let commands = command_buffer | AMD_COMMAND_BUFFER_ENCODING;
    let enable = AMD_IOMMU_ENABLE | AMD_COMMAND_BUFFER_ENABLE;
    amd_stop_ops() + seq![
        RegisterOp::Write64 { offset: AMD_DEVICE_TABLE_BASE, word: table },
        RegisterOp::Write64 { offset: AMD_COMMAND_BUFFER_BASE, word: commands },
        RegisterOp::Fence,
        RegisterOp::Expect64 {
            offset: AMD_DEVICE_TABLE_BASE,
            mask: AMD_DEVICE_TABLE_MASK,
            word: table,
        },
        RegisterOp::Expect64 {
            offset: AMD_COMMAND_BUFFER_BASE,
            mask: AMD_COMMAND_BUFFER_MASK,
            word: commands,
        },
        RegisterOp::Write64 { offset: AMD_CONTROL, word: enable },
        RegisterOp::Expect64 { offset: AMD_CONTROL, mask: enable, word: enable },
    ]
}

fn push_amd_stop(ops: &mut Vec<RegisterOp>)
    ensures
        final(ops)@ == old(ops)@ + amd_stop_ops(),
{
    ops.push(RegisterOp::Write64 { offset: AMD_CONTROL, word: 0 });
    ops.push(
        RegisterOp::Expect64 {
            offset: AMD_CONTROL,
            mask: AMD_IOMMU_ENABLE | AMD_DEVICE_TABLE_SEGMENT_ENABLE,
            word: 0,
        },
    );
    assert(ops@ =~= old(ops)@ + amd_stop_ops());
}

/// The program that denies every requester with one invalid entry for each.
pub fn enable_amd_deny_all(device_table: u64) -> (r: Result<Vec<RegisterOp>, Error>)
    ensures
        match r {
            Ok(ops) => device_table < PHYSICAL_LIMIT && ops@ == amd_deny_all_ops(device_table),
            Err(e) => device_table >= PHYSICAL_LIMIT && e == Error::InvalidResources,
        },
{
    if device_table >= PHYSICAL_LIMIT {
        return Err(Error::InvalidResources);
    }
    let table: u64 = device_table | AMD_DEVICE_TABLE_SIZE;
    let mut ops: Vec<RegisterOp> = Vec::new();
    push_amd_stop(&mut ops);
    ops.push(RegisterOp::Write64 { offset: AMD_DEVICE_TABLE_BASE, word: table });
    ops.push(RegisterOp::Fence);
    ops.push(
        RegisterOp::Expect64 {
            offset: AMD_DEVICE_TABLE_BASE,
            mask: AMD_DEVICE_TABLE_MASK,
            word: table,
        },
    );
    ops.push(RegisterOp::Write64 { offset: AMD_CONTROL, word: AMD_IOMMU_ENABLE });
    ops.push(
        RegisterOp::Expect64 {
            offset: AMD_CONTROL,
            mask: AMD_IOMMU_ENABLE,
            word: AMD_IOMMU_ENABLE,
        },
    );
    assert(ops@ =~= amd_deny_all_ops(device_table));
    Ok(ops)
}

/// Every page of a unit can be named by its registers and tables.
pub open spec fn resources_in_reach(resources: IommuResources) -> bool {
    &&& resources.remapping_table < PHYSICAL_LIMIT
    &&& resources.domain_tables < PHYSICAL_LIMIT
    &&& resources.command_buffer < PHYSICAL_LIMIT
    &&& resources.completion < PHYSICAL_LIMIT
}

/// The program that installs a unit's device table and command buffer.
pub fn enable_amd_protection(resources: &IommuResources) -> (r: Result<Vec<RegisterOp>, Error>)
    ensures
        match r {
            Ok(ops) => resources_in_reach(*resources) && ops@ == amd_protection_ops(
                resources.remapping_table,
                resources.command_buffer,
            ),
            Err(e) => !resources_in_reach(*resources) && e == Error::InvalidResources,
        },
{
    if resources.remapping_table >= PHYSICAL_LIMIT || resources.domain_tables >= PHYSICAL_LIMIT
        || resources.command_buffer >= PHYSICAL_LIMIT || resources.completion >= PHYSICAL_LIMIT {
        return Err(Error::InvalidResources);
    }
    let table: u64 = resources.remapping_table | AMD_DEVICE_TABLE_SIZE;
    let commands: u64 = resources.command_buffer | AMD_COMMAND_BUFFER_ENCODING;
    let enable: u64 = AMD_IOMMU_ENABLE | AMD_COMMAND_BUFFER_ENABLE;
    let mut ops: Vec<RegisterOp> = Vec::new();
    push_amd_stop(&mut ops);
    ops.push(RegisterOp::Write64 { offset: AMD_DEVICE_TABLE_BASE, word: table });
    ops.push(RegisterOp::Write64 { offset: AMD_COMMAND_BUFFER_BASE, word: commands });
    ops.push(RegisterOp::Fence);
    ops.push(
        RegisterOp::Expect64 {
            offset: AMD_DEVICE_TABLE_BASE,
            mask: AMD_DEVICE_TABLE_MASK,
            word: table,
        },
    );
    ops.push(
        RegisterOp::Expect64 {
            offset: AMD_COMMAND_BUFFER_BASE,
            mask: AMD_COMMAND_BUFFER_MASK,
            word: commands,
        },
    );
    ops.push(RegisterOp::Write64 { offset: AMD_CONTROL, word: enable });
    ops.push(RegisterOp::Expect64 { offset: AMD_CONTROL, mask: enable, word: enable });
    assert(ops@ =~= amd_protection_ops(resources.remapping_table, resources.command_buffer));
    Ok(ops)
}

/// The commands that make a unit forget a requester and its domain, and then
/// store the completion value.
pub open spec fn invalidation_commands(
    requester: u16,
    domain_id: u16,
    completion_address: u64,
    completion_value: u64,
) -> Seq<Seq<u32>> {
    seq![
        seq![requester as u32, 0x2000_0000u32, 0u32, 0u32],
        seq![0u32, 0x3000_0000u32 | domain_id as u32, 0xffff_f003u32, 0x7fff_ffffu32],
        seq![
            (completion_address % 0x1_0000_0000) as u32 | 1,
            (completion_address / 0x1_0000_0000) as u32 | 0x1000_0000u32,
            (completion_value % 0x1_0000_0000) as u32,
            (completion_value / 0x1_0000_0000) as u32,
        ],
    ]
}

pub fn amd_invalidation_commands(
    requester: u16,
    domain_id: u16,
    completion_address: u64,
    completion_value: u64,
) -> (r: [[u32; 4]; 3])
    ensures
        r@.map_values(|c: [u32; 4]| c@) == invalidation_commands(
            requester,
            domain_id,
            completion_address,
            completion_value,
        ),
{
    let first: [u32; 4] = [requester as u32, 0x2000_0000, 0, 0];
    let second: [u32; 4] = [0, 0x3000_0000 | domain_id as u32, 0xffff_f003, 0x7fff_ffff];
    let third: [u32; 4] = [
        (completion_address % 0x1_0000_0000) as u32 | 1,
        (completion_address / 0x1_0000_0000) as u32 | 0x1000_0000,
        (completion_value % 0x1_0000_0000) as u32,
        (completion_value / 0x1_0000_0000) as u32,
    ];
    let r: [[u32; 4]; 3] = [first, second, third];
    let ghost expected = invalidation_commands(
        requester,
        domain_id,
        completion_address,
        completion_value,
    );
    assert(first@ =~= expected[0]);
    assert(second@ =~= expected[1]);
    assert(third@ =~= expected[2]);
    assert(r@.map_values(|c: [u32; 4]| c@) =~= expected);
    r
}

/// The place behind a command in the ring.
pub open spec fn next_tail(tail: int) -> int {
    (tail + 16) % (AMD_COMMAND_BUFFER_SIZE as int)
}

/// Where the next command ends, if the ring has room for it: the place behind it
/// must not be where the unit reads next.
pub fn queue_amd_command(tail: usize, head: u64) -> (r: Option<usize>)
    requires
        tail < AMD_COMMAND_BUFFER_SIZE,
    ensures
        r == (if next_tail(tail as int) != head % 0x2000 {
            Some(next_tail(tail as int) as usize)
        } else {
            None
        }),
{
    let next: usize = (tail + 16) % AMD_COMMAND_BUFFER_SIZE;
    if next as u64 != head % 0x2000 {
        Some(next)
    } else {
        None
    }
}

/// The completion value behind another; it is never zero.
pub fn next_completion(value: u64) -> (r: u64)
    ensures
        r == (if value == u64::MAX {
            1
        } else {
            value + 1
        }),
{
    if value == u64::MAX {
        1
    } else {
        value + 1
    }
}

/// A read of the status register at 0x1c, until a bit is set or clear.
pub open spec fn status_wait(op: RegisterOp, bits: u32, set: bool) -> bool {
    match op {
        RegisterOp::Await32 { offset, bits: awaited, set: wanted, limit } => offset == 0x1c
            && awaited == bits && wanted == set && limit >= 10_000,
        _ => false,
    }
}

/// A unit that was not translating is stopped before its root changes, status bit 31
/// being seen clear, and starts to translate after both invalidations, bit 31 being
/// seen set. One that was translating is told to keep only bit 31, and queued
/// invalidation (bit 26) and interrupt remapping (bit 25) are seen clear before the
/// root changes.
pub proof fn law_take_over_stops_and_starts_around_the_root(
    status: u32,
    root_table: u64,
    capability: u64,
    extended: u64,
) -> (at: (int, int, int, int, int, int))
    requires
        extended / 0x100 % 0x400 != 0,
    ensures
        0 <= at.0 < at.1 <= at.2 < at.3 < at.4 < at.5 <= take_over_ops(
            status,
            root_table,
            capability,
            extended,
        ).len(),
        take_over_ops(status, root_table, capability, extended)[at.3] == root_write(root_table),
        status & 0x8000_0000 == 0 ==> take_over_ops(
            status,
            root_table,
            capability,
            extended,
        )[at.0] == (RegisterOp::Write32 { offset: 0x18, command: 0 }) && status_wait(
            take_over_ops(status, root_table, capability, extended)[at.1],
            0x8000_0000,
            false,
        ) && take_over_ops(status, root_table, capability, extended)[at.4] == (
        RegisterOp::Write32 { offset: 0x18, command: 0x8000_0000 }) && status_wait(
            take_over_ops(status, root_table, capability, extended)[at.5],
            0x8000_0000,
            true,
        ) && take_over_ops(status, root_table, capability, extended)[at.4 - 2] == (
        RegisterOp::Await64 {
            offset: (16 * (extended / 0x100 % 0x400) + 8) as u64,
            mask: 0x8000_0000_0000_0000,
        }),
        status & 0x8000_0000 != 0 ==> take_over_ops(
            status,
            root_table,
            capability,
            extended,
        )[at.0] == (RegisterOp::Write32 { offset: 0x18, command: 0x8000_0000 }) && status_wait(
            take_over_ops(status, root_table, capability, extended)[at.1],
            0x0400_0000,
            false,
        ) && status_wait(
            take_over_ops(status, root_table, capability, extended)[at.2],
            0x0200_0000,
            false,
        ),
{
    lemma_command_words();
    let ops = take_over_ops(status, root_table, capability, extended);
    let translation = running_commands(status);
    let flush = flush_ops(capability, translation);
    let root = root_ops(root_table, translation);
    let invalidate = invalidate_ops(extended);
    if status & 0x8000_0000 != 0 {
        let first = 4int + flush.len();
        assert(ops[first + 1] == root[1]);
        (1int, 2int, 3int, first + 1, first + 2, first + 3)
    } else {
        let first = 3int + flush.len();
        assert(ops[first + 1] == root[1]);
        assert(ops[first + 11] == invalidate[5]);
        (1int, 2int, 2int, first + 1, first + 13, first + 14)
    }
}

/// A unit with a write buffer (bit 4 of its capabilities) has it flushed, by command
/// bit 27 with bit 31 as it was and a wait for status bit 27 to clear, before its root
/// changes. A unit without one is never told to flush.
pub proof fn law_write_buffer_is_flushed_before_the_root_changes(
    status: u32,
    root_table: u64,
    capability: u64,
    extended: u64,
) -> (at: (int, int, int))
    ensures
        capability & 0x10 != 0 ==> 0 <= at.0 < at.1 < at.2 < take_over_ops(
            status,
            root_table,
            capability,
            extended,
        ).len() && take_over_ops(status, root_table, capability, extended)[at.0] == (
        RegisterOp::Write32 {
            offset: 0x18,
            command: (0x0800_0000 + running_commands(status)) as u32,
        }) && status_wait(
            take_over_ops(status, root_table, capability, extended)[at.1],
            0x0800_0000,
            false,
        ) && take_over_ops(status, root_table, capability, extended)[at.2] == root_write(
            root_table,
        ),
        capability & 0x10 == 0 ==> forall|i: int|
            0 <= i < take_over_ops(status, root_table, capability, extended).len()
                ==> #[trigger] flushes_nothing(
                take_over_ops(status, root_table, capability, extended)[i],
            ),
{
    lemma_command_words();
    let ops = take_over_ops(status, root_table, capability, extended);
    let translation = running_commands(status);
    let flush = flush_ops(capability, translation);
    let root = root_ops(root_table, translation);
    let invalidate = invalidate_ops(extended);
    let protect = protected_memory_ops(capability);
    let head: int = if status & 0x8000_0000 != 0 {
        4
    } else {
        3
    };
    let first = head + flush.len();
    assert(ops[first + 1] == root[1]);
    if capability & 0x10 != 0 {
        assert(ops[head + 1] == flush[1] && ops[head + 2] == flush[2]);
    } else {
        let tail: int = if status & 0x8000_0000 != 0 {
            first + 6 + invalidate.len()
        } else {
            first + 9 + invalidate.len()
        };
        assert forall|i: int| 0 <= i < ops.len() implies #[trigger] flushes_nothing(ops[i]) by {
            if i < head {
            } else if i < first + 6 {
                assert(ops[i] == root[i - first]);
            } else if i < first + 6 + invalidate.len() {
                assert(ops[i] == invalidate[i - first - 6]);
            } else if i >= tail {
                assert(ops[i] == protect[i - tail]);
            }
        }
    }
    (head + 1, head + 2, first + 1)
}

/// Whether an access is no command to flush the write buffer.
pub open spec fn flushes_nothing(op: RegisterOp) -> bool {
    match op {
        RegisterOp::Write32 { offset, command } => offset == 0x18 ==> command & 0x0800_0000 == 0,
        _ => true,
    }
}

/// A unit with protected memory (bit 5 or 6 of its capabilities) ends its program by
/// clearing bit 31 of the register at 0x64 and waiting for bit 0 there to clear. On a
/// unit without, nothing touches that register.
pub proof fn law_protected_memory_is_opened_last(
    status: u32,
    root_table: u64,
    capability: u64,
    extended: u64,
)
    ensures
        capability & 0x60 != 0 ==> ({
            let ops = take_over_ops(status, root_table, capability, extended);
            &&& ops.len() >= 2
            &&& ops[ops.len() - 2] == (RegisterOp::Clear32 { offset: 0x64, bits: 0x8000_0000 })
            &&& ops[ops.len() - 1] == (RegisterOp::Await32 {
                offset: 0x64,
                bits: 1,
                set: false,
                limit: 1_000_000,
            })
        }),
        capability & 0x60 == 0 ==> forall|i: int|
            0 <= i < take_over_ops(status, root_table, capability, extended).len() ==> !(
            #[trigger] take_over_ops(status, root_table, capability, extended)[i] is Clear32),
{
    let ops = take_over_ops(status, root_table, capability, extended);
    let translation = running_commands(status);
    let flush = flush_ops(capability, translation);
    let root = root_ops(root_table, translation);
    let invalidate = invalidate_ops(extended);
    let protect = protected_memory_ops(capability);
    let head: int = if status & 0x8000_0000 != 0 {
        4
    } else {
        3
    };
    let first = head + flush.len();
    let tail: int = if status & 0x8000_0000 != 0 {
        first + 6 + invalidate.len()
    } else {
        first + 9 + invalidate.len()
    };
    assert(ops.len() == tail + protect.len());
    if capability & 0x60 != 0 {
        assert(ops[tail + 1] == protect[1] && ops[tail + 2] == protect[2]);
    } else {
        assert forall|i: int| 0 <= i < ops.len() implies !(#[trigger] ops[i] is Clear32) by {
            if i < head {
            } else if i < first {
                assert(ops[i] == flush[i - head]);
            } else if i < first + 6 {
                assert(ops[i] == root[i - first]);
            } else if i < first + 6 + invalidate.len() {
                assert(ops[i] == invalidate[i - first - 6]);
            }
        }
    }
}

/// What the last write of a register left there, if there was one.
pub open spec fn last_word(ops: Seq<RegisterOp>, at: u64) -> Option<u64>
    decreases ops.len(),
{
    if ops.len() == 0 {
        None
    } else {
        match ops.last() {
            RegisterOp::Write64 { offset, word } if offset == at => Some(word),
            _ => last_word(ops.drop_last(), at),
        }
    }
}

/// The control register (0x18) is written exactly twice by a program: first with
/// nothing enabled, which is read back, and last with what the unit is to do; between
/// the two stand a fence and, before it, every other write.
pub open spec fn stops_then_starts(ops: Seq<RegisterOp>, enable: u64) -> bool {
    &&& ops.len() >= 4
    &&& ops[0] == (RegisterOp::Write64 { offset: 0x18, word: 0 })
    &&& ops[1] == (RegisterOp::Expect64 { offset: 0x18, mask: 0x1c_0000_0001, word: 0 })
    &&& ops[ops.len() - 2] == (RegisterOp::Write64 { offset: 0x18, word: enable })
    &&& ops[ops.len() - 1] == (RegisterOp::Expect64 { offset: 0x18, mask: enable, word: enable })
    &&& forall|i: int|
        2 <= i < ops.len() - 2 ==> match #[trigger] ops[i] {
            RegisterOp::Write64 { offset, .. } => offset != 0x18,
            RegisterOp::Expect64 { .. } => true,
            RegisterOp::Fence => true,
            _ => false,
        }
}

/// The address and the size of a table do not overlap in its register.
proof fn lemma_table_words(device_table: u64, command_buffer: u64)
    requires
        device_table % 0x1000 == 0,
        device_table < 0x10_0000_0000_0000,
        command_buffer % 0x1000 == 0,
        command_buffer < 0x10_0000_0000_0000,
    ensures
        device_table | 511 == device_table + 511,
        command_buffer | 0x0900_0000_0000_0000 == command_buffer + 0x0900_0000_0000_0000,
        1u64 | 0x1000 == 0x1001,
        1u64 | 0x1c_0000_0000 == 0x1c_0000_0001,
{
    assert(device_table | 511 == device_table + 511 && command_buffer | 0x0900_0000_0000_0000
        == command_buffer + 0x0900_0000_0000_0000 && 1u64 | 0x1000 == 0x1001 && 1u64
        | 0x1c_0000_0000 == 0x1c_0000_0001) by (bit_vector)
        requires
            device_table % 0x1000 == 0,
            device_table < 0x10_0000_0000_0000,
            command_buffer % 0x1000 == 0,
            command_buffer < 0x10_0000_0000_0000,
    ;
}

/// A unit that denies every requester is stopped, given the table at 0x0 with its 512
/// pages (511 in bits 0 to 8, the page address above), checked, and only then enabled
/// (bit 0); the command buffer stays off.
pub proof fn law_deny_all_installs_the_table_before_enabling(device_table: u64)
    requires
        device_table % 0x1000 == 0,
        device_table < 0x10_0000_0000_0000,
    ensures
        stops_then_starts(amd_deny_all_ops(device_table), 1),
        last_word(amd_deny_all_ops(device_table), 0x0) == Some((device_table + 511) as u64),
        exists|i: int|
            2 <= i < amd_deny_all_ops(device_table).len() - 2 && #[trigger] amd_deny_all_ops(
                device_table,
            )[i] == (RegisterOp::Expect64 {
                offset: 0x0,
                mask: 0x000f_ffff_ffff_f1ff,
                word: (device_table + 511) as u64,
            }),
{
    let ops = amd_deny_all_ops(device_table);
    lemma_table_words(device_table, 0);
    reveal_with_fuel(last_word, 8);
    assert(ops.drop_last().drop_last().drop_last().drop_last().last() == ops[2]);
    assert(ops[4] == (RegisterOp::Expect64 {
        offset: 0x0,
        mask: 0x000f_ffff_ffff_f1ff,
        word: (device_table + 511) as u64,
    }));
}

/// A unit that protects is stopped, given the device table at 0x0 (512 pages) and the
/// command buffer at 0x8 (512 entries: 9 in bits 56 to 59), has both read back, and is
/// only then enabled, with its command buffer (bits 0 and 12).
pub proof fn law_protection_installs_both_tables_before_enabling(
    device_table: u64,
    command_buffer: u64,
)
    requires
        device_table % 0x1000 == 0,
        device_table < 0x10_0000_0000_0000,
        command_buffer % 0x1000 == 0,
        command_buffer < 0x10_0000_0000_0000,
    ensures
        stops_then_starts(amd_protection_ops(device_table, command_buffer), 0x1001),
        last_word(amd_protection_ops(device_table, command_buffer), 0x0) == Some(
            (device_table + 511) as u64,
        ),
        last_word(amd_protection_ops(device_table, command_buffer), 0x8) == Some(
            (command_buffer + 0x0900_0000_0000_0000) as u64,
        ),
        exists|i: int|
            2 <= i < amd_protection_ops(device_table, command_buffer).len() - 2
                && #[trigger] amd_protection_ops(device_table, command_buffer)[i] == (
            RegisterOp::Expect64 {
                offset: 0x0,
                mask: 0x000f_ffff_ffff_f1ff,
                word: (device_table + 511) as u64,
            }),
        exists|i: int|
            2 <= i < amd_protection_ops(device_table, command_buffer).len() - 2
                && #[trigger] amd_protection_ops(device_table, command_buffer)[i] == (
            RegisterOp::Expect64 {
                offset: 0x8,
                mask: 0x0fff_ffff_ffff_f000,
                word: (command_buffer + 0x0900_0000_0000_0000) as u64,
            }),
{
    let ops = amd_protection_ops(device_table, command_buffer);
    lemma_table_words(device_table, command_buffer);
    reveal_with_fuel(last_word, 10);
    assert(ops.drop_last().drop_last().drop_last().drop_last().drop_last().last() == ops[3]);
    assert(ops.drop_last().drop_last().drop_last().drop_last().drop_last().drop_last().last()
        == ops[2]);
    assert(ops[5] == (RegisterOp::Expect64 {
        offset: 0x0,
        mask: 0x000f_ffff_ffff_f1ff,
        word: (device_table + 511) as u64,
    }));
    assert(ops[6] == (RegisterOp::Expect64 {
        offset: 0x8,
        mask: 0x0fff_ffff_ffff_f000,
        word: (command_buffer + 0x0900_0000_0000_0000) as u64,
    }));
}

/// The four words of a command as the two quadwords that the unit reads.
pub open spec fn low_quad(command: Seq<u32>) -> int {
    command[0] + 0x1_0000_0000 * command[1]
}

pub open spec fn high_quad(command: Seq<u32>) -> int {
    command[2] + 0x1_0000_0000 * command[3]
}

/// Of the commands that forget a requester, the first names the device table entry of
/// that requester (command 2 in the top four bits, the requester in the low sixteen),
/// the second every page of its domain (command 3, the domain in bits 32 to 47, the
/// whole address space with directory entries), and the last waits for both (command
/// 1) and stores the completion value at the completion address.
pub proof fn law_invalidation_names_requester_domain_and_completion(
    requester: u16,
    domain_id: u16,
    completion_address: u64,
    completion_value: u64,
)
    requires
        completion_address % 8 == 0,
        completion_address < 0x10_0000_0000_0000,
    ensures
        ({
            let commands = invalidation_commands(
                requester,
                domain_id,
                completion_address,
                completion_value,
            );
            &&& commands.len() == 3
            &&& low_quad(commands[0]) == 0x2000_0000_0000_0000 + requester
            &&& high_quad(commands[0]) == 0
            &&& low_quad(commands[1]) == 0x3000_0000_0000_0000 + domain_id * 0x1_0000_0000
            &&& high_quad(commands[1]) == 0x7fff_ffff_ffff_f003
            &&& low_quad(commands[2]) == 0x1000_0000_0000_0000 + completion_address + 1
            &&& high_quad(commands[2]) == completion_value
        }),
{
    let d = domain_id as u32;
    let low = (completion_address % 0x1_0000_0000) as u32;
    let high = (completion_address / 0x1_0000_0000) as u32;
    assert(0x3000_0000u32 | d == 0x3000_0000 + d && low | 1 == low + 1 && high | 0x1000_0000
        == high + 0x1000_0000) by (bit_vector)
        requires
            d < 0x1_0000u32,
            low % 8 == 0,
            high < 0x10_0000u32,
    ;
}

/// The tail of the ring moves on by one command of sixteen bytes, round the 8192 bytes
/// of the ring, so that it always stands at a command and never stays where it was.
pub proof fn law_command_ring_moves_by_one_command(tail: usize)
    requires
        tail < 0x2000,
        tail % 16 == 0,
    ensures
        0 <= next_tail(tail as int) < 0x2000,
        next_tail(tail as int) % 16 == 0,
        next_tail(tail as int) == tail + 16 || next_tail(tail as int) == 0 && tail == 0x1ff0,
        next_tail(tail as int) != tail,
{
}

} // verus!
