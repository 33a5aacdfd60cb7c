//! Physical host AP startup. Resources remain owned by mBoot for its lifetime.

use vstd::prelude::*;

use crate::bytes::{
    law_le32_reads_back, law_le64_reads_back, le32, le64, push_u32, push_u64, u16_at, u32_at, u64_at,
};
use crate::{CpuidResult, Error, VmExit, VmExitReason};

verus! {

pub const STACK_PAGES: usize = 16;

/// Where the parameters of the startup code are in its page.
pub const PARAMS: usize = 0x800;

pub const STARTUP_PAGE_SIZE: usize = 4096;

pub const MXCSR_RESET: u32 = 0x1f80;

pub const CODE_32: u64 = 0x00cf_9a00_0000_ffff;

pub const DATA_32: u64 = 0x00cf_9200_0000_ffff;

pub const CODE_64: u64 = 0x00af_9a00_0000_ffff;

pub const INIT_COMMAND: u32 = 0x4500;

pub const STARTUP_COMMAND: u32 = 0x600;

pub const APIC_ENABLE: u64 = 0x800;

pub const X2APIC_ENABLE: u64 = 0x400;

#[derive(Clone, Copy, Debug, PartialEq, Eq, Structural)]
pub enum StartError {
    Unsupported,
    BadBufferSize,
    AlreadyStarted,
    Timeout,
    DeviceError,
}

/// What an AP needs to join the host.
#[derive(Clone, Copy, Debug, PartialEq, Eq, Structural)]
pub struct StartupParameters {
    pub page: u64,
    pub protected_mode_offset: u32,
    pub long_mode_offset: u32,
    pub entry: u64,
    pub cr0: u64,
    pub cr3: u64,
    pub cr4: u64,
    pub efer: u64,
    pub stack_top: u64,
    pub context: u64,
}

pub open spec fn le16(value: u16) -> Seq<u8> {
    seq![(value % 0x100) as u8, (value / 0x100) as u8]
}

pub open spec fn blanks(n: int) -> Seq<u8> {
    Seq::new(n as nat, |i: int| 0u8)
}

/// The temporary GDT's pointer and the two far pointers of the startup code.
pub open spec fn pointers(p: StartupParameters) -> Seq<u8> {
    le16(31) + le32((p.page + 0x850) as u32) + le32((p.page + p.protected_mode_offset) as u32)
        + le16(8) + le32((p.page + p.long_mode_offset) as u32) + le16(24) + le32(MXCSR_RESET)
        + blanks(2)
}

/// CR0 with monitoring on and without emulation or a task switch pending.
pub open spec fn startup_cr0(cr0: u64) -> u64 {
    (cr0 | 2) & 0xffff_ffff_ffff_fff3
}

/// CR4 with PAE and SSE on and without XSAVE.
pub open spec fn startup_cr4(cr4: u64) -> u64 {
    (cr4 | 0x620) & 0xffff_ffff_fffb_ffff
}

/// EFER without the bit that only the CPU sets.
pub open spec fn startup_efer(efer: u64) -> u64 {
    efer & 0xffff_ffff_ffff_fbff
}

/// The registers that the startup code loads.
pub open spec fn registers(p: StartupParameters) -> Seq<u8> {
    le64(p.entry) + le64(startup_cr0(p.cr0)) + le64(p.cr3) + le64(startup_cr4(p.cr4)) + le64(
        startup_efer(p.efer),
    ) + le64(p.stack_top) + le64(p.context)
}

/// The temporary GDT of the startup code.
pub open spec fn segments() -> Seq<u8> {
    le64(0) + le64(CODE_32) + le64(DATA_32) + le64(CODE_64)
}

/// The page that an AP starts in: the code, and its parameters.
pub open spec fn startup_page(code: Seq<u8>, p: StartupParameters) -> Seq<u8> {
    code + blanks(PARAMS - code.len()) + pointers(p) + registers(p) + segments() + blanks(0x790)
}

fn push_u16(out: &mut Vec<u8>, value: u16)
    ensures
        final(out)@ == old(out)@ + le16(value),
{
    out.push((value % 0x100) as u8);
    out.push((value / 0x100) as u8);
    assert(out@ =~= old(out)@ + le16(value));
}

fn push_blanks(out: &mut Vec<u8>, n: usize)
    ensures
        final(out)@ == old(out)@ + blanks(n as int),
{
    let mut i: usize = 0;
    assert(out@ =~= old(out)@ + blanks(0));
    while i < n
        invariant
            i <= n,
            out@ == old(out)@ + blanks(i as int),
        decreases n - i,
    {
        out.push(0);
        i += 1;
        assert(out@ =~= old(out)@ + blanks(i as int));
    }
}

fn push_pointers(out: &mut Vec<u8>, p: &StartupParameters)
    requires
        p.page < 0x10_0000,
        p.protected_mode_offset <= PARAMS,
        p.long_mode_offset <= PARAMS,
    ensures
        final(out)@ == old(out)@ + pointers(*p),
{
    let page: u32 = p.page as u32;
    push_u16(out, 31);
    push_u32(out, page + 0x850);
    push_u32(out, page + p.protected_mode_offset);
    push_u16(out, 8);
    push_u32(out, page + p.long_mode_offset);
    push_u16(out, 24);
    push_u32(out, MXCSR_RESET);
    push_blanks(out, 2);
    assert(out@ =~= old(out)@ + pointers(*p));
}

fn push_registers(out: &mut Vec<u8>, p: &StartupParameters)
    ensures
        final(out)@ == old(out)@ + registers(*p),
{
    push_u64(out, p.entry);
    push_u64(out, (p.cr0 | 2) & 0xffff_ffff_ffff_fff3);
    push_u64(out, p.cr3);
    push_u64(out, (p.cr4 | 0x620) & 0xffff_ffff_fffb_ffff);
    push_u64(out, p.efer & 0xffff_ffff_ffff_fbff);
    push_u64(out, p.stack_top);
    push_u64(out, p.context);
    assert(out@ =~= old(out)@ + registers(*p));
}

fn push_segments(out: &mut Vec<u8>)
    ensures
        final(out)@ == old(out)@ + segments(),
{
    push_u64(out, 0);
    push_u64(out, CODE_32);
    push_u64(out, DATA_32);
    push_u64(out, CODE_64);
    assert(out@ =~= old(out)@ + segments());
}

/// Writes the page that an AP starts in.
pub fn build_startup_page(
    code: &[u8],
    parameters: &StartupParameters,
) -> (r: Result<Vec<u8>, StartError>)
    requires
        parameters.page < 0x10_0000,
        parameters.protected_mode_offset <= PARAMS,
        parameters.long_mode_offset <= PARAMS,
    ensures
        match r {
            Ok(page) => code@.len() <= PARAMS && page@ == startup_page(code@, *parameters)
                && page@.len() == STARTUP_PAGE_SIZE,
            Err(e) => code@.len() > PARAMS && e == StartError::BadBufferSize,
        },
{
    if code.len() > PARAMS {
        return Err(StartError::BadBufferSize);
    }
    let mut page: Vec<u8> = vstd::slice::slice_to_vec(code);
    push_blanks(&mut page, PARAMS - code.len());
    push_pointers(&mut page, parameters);
    push_registers(&mut page, parameters);
    push_segments(&mut page);
    push_blanks(&mut page, 0x790);
    assert(page@ =~= startup_page(code@, *parameters));
    assert(le64(0).len() == 8 && le32(0).len() == 4);
    assert(pointers(*parameters).len() == 24 && registers(*parameters).len() == 56
        && segments().len() == 32);
    Ok(page)
}

/// Whether the host can start its APs: four-level paging through a 32-bit CR3
/// without process contexts, and an enabled APIC.
pub open spec fn can_start(tsc_hz: u64, cr3: u64, cr4: u64, apic: u64) -> bool {
    tsc_hz != 0 && cr3 <= u32::MAX && cr4 & 0x2_1000 == 0 && apic & APIC_ENABLE != 0
}

pub fn check_host(tsc_hz: u64, cr3: u64, cr4: u64, apic: u64) -> (r: Result<(), StartError>)
    ensures
        r == (if can_start(tsc_hz, cr3, cr4, apic) {
            Ok::<(), StartError>(())
        } else {
            Err(StartError::Unsupported)
        }),
{
    if tsc_hz == 0 || cr3 > u32::MAX as u64 || cr4 & 0x2_1000 != 0 || apic & APIC_ENABLE == 0 {
        return Err(StartError::Unsupported);
    }
    Ok(())
}

/// Whether an AP can be started now: it is not running yet, and the APIC can name
/// it.
pub fn check_processor(online: u32, apic: u64, id: u32) -> (r: Result<(), StartError>)
    ensures
        r == (if online != 0 {
            Err::<(), StartError>(StartError::AlreadyStarted)
        } else if apic & X2APIC_ENABLE == 0 && id > 255 {
            Err(StartError::Unsupported)
        } else {
            Ok(())
        }),
{
    if online != 0 {
        return Err(StartError::AlreadyStarted);
    }
    if apic & X2APIC_ENABLE == 0 && id > 255 {
        return Err(StartError::Unsupported);
    }
    Ok(())
}

/// What an AP that was started has come to: it runs, it failed, or it is not
/// there yet.
pub fn check_online(online: u32, late: bool) -> (r: Result<bool, StartError>)
    ensures
        r == (if online == 0 {
            if late {
                Err::<bool, StartError>(StartError::Timeout)
            } else {
                Ok(false)
            }
        } else if online == 1 {
            Ok(true)
        } else {
            Err(StartError::DeviceError)
        }),
{
    if online == 0 {
        if late {
            return Err(StartError::Timeout);
        }
        return Ok(false);
    }
    if online != 1 {
        return Err(StartError::DeviceError);
    }
    Ok(true)
}

/// A processor that firmware reports as usable, and that is not the one mBoot
/// runs on.
pub fn is_startable(bootstrap: bool, enabled: bool, healthy: bool) -> (r: bool)
    ensures
        r == (!bootstrap && enabled && healthy),
{
    !bootstrap && enabled && healthy
}

/// The interrupt command that starts an AP in its page.
pub fn startup_command(page: u64) -> (r: u32)
    requires
        page < 0x10_0000,
    ensures
        r == STARTUP_COMMAND | ((page / 0x1000) as u32),
{
    STARTUP_COMMAND | ((page / 0x1000) as u32)
}

/// Whether a wrapping clock has passed a deadline.
pub open spec fn has_passed(now: u64, deadline: u64) -> bool {
    let since = if now >= deadline {
        now - deadline
    } else {
        now - deadline + 0x1_0000_0000_0000_0000
    };
    since < 0x8000_0000_0000_0000
}

pub fn is_late(now: u64, deadline: u64) -> (r: bool)
    ensures
        r == has_passed(now, deadline),
{
    now.wrapping_sub(deadline) < 0x8000_0000_0000_0000
}

/// The interrupt commands that start an AP, in the order in which they are sent.
#[derive(Clone, Copy, Debug, PartialEq, Eq, Structural)]
pub enum StartCommand {
    Init,
    Startup,
    /// The startup command once more, for a processor that has missed the first.
    Again,
}

impl StartCommand {
    /// The word that is sent to start the processor in its page.
    pub fn word(self, page: u64) -> (r: u32)
        requires
            page < 0x10_0000,
        ensures
            r == (match self {
                StartCommand::Init => INIT_COMMAND,
                _ => STARTUP_COMMAND | ((page / 0x1000) as u32),
            }),
    {
        match self {
            StartCommand::Init => INIT_COMMAND,
            _ => startup_command(page),
        }
    }
}

/// What has to be done next to start an AP. Times are in ticks of the clock.
#[derive(Clone, Copy, Debug, PartialEq, Eq, Structural)]
pub enum StartStep {
    /// Send the command.
    Send(StartCommand),
    /// Let the time pass after the command.
    Wait { sent: StartCommand, ticks: u64 },
    /// Look whether the processor has come, for no longer than the time.
    Watch { ticks: u64 },
    /// The processor runs.
    Started,
    /// The processor cannot be used.
    Failed(StartError),
}

impl StartStep {
    /// An AP is to be started.
    pub fn start() -> (r: Self)
        ensures
            r == StartStep::Send(StartCommand::Init),
    {
        StartStep::Send(StartCommand::Init)
    }

    /// The command was sent, or could not be.
    pub fn sent(command: StartCommand, result: Result<(), StartError>, tsc_hz: u64) -> (r: Self)
        ensures
            r == (match result {
                Err(error) => StartStep::Failed(error),
                Ok(_) => match command {
                    StartCommand::Init => StartStep::Wait { sent: command, ticks: tsc_hz / 100 },
                    StartCommand::Startup => StartStep::Wait {
                        sent: command,
                        ticks: tsc_hz / 5000,
                    },
                    StartCommand::Again => StartStep::Watch { ticks: tsc_hz },
                },
            }),
    {
        if let Err(error) = result {
            return StartStep::Failed(error);
        }
        match command {
            StartCommand::Init => StartStep::Wait { sent: command, ticks: tsc_hz / 100 },
            StartCommand::Startup => StartStep::Wait { sent: command, ticks: tsc_hz / 5000 },
            StartCommand::Again => StartStep::Watch { ticks: tsc_hz },
        }
    }

    /// The time after a command has passed. A processor that has not come by then is
    /// called a second time.
    pub fn waited(sent: StartCommand, online: u32, tsc_hz: u64) -> (r: Self)
        ensures
            r == (match sent {
                StartCommand::Init => StartStep::Send(StartCommand::Startup),
                StartCommand::Startup if online == 0 => StartStep::Send(StartCommand::Again),
                _ => StartStep::Watch { ticks: tsc_hz },
            }),
    {
        match sent {
            StartCommand::Init => StartStep::Send(StartCommand::Startup),
            StartCommand::Startup => if online == 0 {
                StartStep::Send(StartCommand::Again)
            } else {
                StartStep::Watch { ticks: tsc_hz }
            },
            StartCommand::Again => StartStep::Watch { ticks: tsc_hz },
        }
    }

    /// The processor was looked for once. While there is time, it is looked for again.
    pub fn watched(online: u32, now: u64, deadline: u64) -> (r: Option<Self>)
        ensures
            r == (if online == 1 {
                Some(StartStep::Started)
            } else if online != 0 {
                Some(StartStep::Failed(StartError::DeviceError))
            } else if has_passed(now, deadline) {
                Some(StartStep::Failed(StartError::Timeout))
            } else {
                None
            }),
    {
        match check_online(online, is_late(now, deadline)) {
            Ok(true) => Some(StartStep::Started),
            Ok(false) => None,
            Err(error) => Some(StartStep::Failed(error)),
        }
    }
}

/// An interrupt command, as an MSR or in the APIC's page.
#[derive(Clone, Copy, Debug, PartialEq, Eq, Structural)]
pub enum IpiWrite {
    Msr { register: u32, value: u64 },
    Page { base: u64, destination: u32, command: u32 },
}

/// The writes that send an interrupt command to a processor.
pub fn send_ipi(apic: u64, id: u32, command: u32) -> (r: IpiWrite)
    ensures
        r == (if apic & X2APIC_ENABLE != 0 {
            IpiWrite::Msr {
                register: 0x830,
                value: (id as u64 * 0x1_0000_0000 + command) as u64,
            }
        } else {
            IpiWrite::Page {
                base: apic & 0xffff_f000,
                destination: (id % 0x100 * 0x100_0000) as u32,
                command,
            }
        }),
{
    if apic & X2APIC_ENABLE != 0 {
        IpiWrite::Msr { register: 0x830, value: id as u64 * 0x1_0000_0000 + command as u64 }
    } else {
        IpiWrite::Page {
            base: apic & 0xffff_f000,
            destination: id % 0x100 * 0x100_0000,
            command,
        }
    }
}

/// The AP on which a Domain runs. Domain zero stays on the bootstrap processor;
/// each further Domain uses a separate AP while there are any.
pub open spec fn processor_of(index: int, processors: int) -> Option<int> {
    if 1 <= index <= processors {
        Some(index - 1)
    } else {
        None
    }
}

/// The AP on which a Domain runs, if it does not stay on the bootstrap processor.
pub fn processor_for(index: usize, processors: usize) -> (r: Option<usize>)
    ensures
        r == (match processor_of(index as int, processors as int) {
            Some(ap) => Some(ap as usize),
            None => None,
        }),
{
    if index >= 1 && index <= processors {
        Some(index - 1)
    } else {
        None
    }
}

/// No two Domains run on the same AP.
pub proof fn law_domains_have_processors_of_their_own(first: int, second: int, processors: int)
    requires
        first != second,
        processor_of(first, processors) is Some,
    ensures
        processor_of(first, processors) != processor_of(second, processors),
{
}

/// How a virtual CPU goes on.
#[derive(Clone, Copy, Debug, PartialEq, Eq, Structural)]
pub enum ResumeKind {
    Hypercall,
    WithoutAdvance,
    Halted,
    MsrRead(u64),
    MsrWrite,
    Cpuid(CpuidResult),
    ControlRegisterWrite { register: u8, value: u64 },
    GeneralProtection,
}

/// The exit of a virtual CPU, and the device interrupt that caused it, which has
/// to be acknowledged.
pub fn acknowledged(exit: VmExit) -> (r: (Option<u8>, VmExit))
    ensures
        r == (if exit.reason == VmExitReason::Preempted && exit.fault_info & 0x8000_0000 != 0 {
            (
                Some((exit.fault_info % 0x100) as u8),
                VmExit { fault_info: exit.fault_info & 0xffff_ffff_7fff_ffff, ..exit },
            )
        } else {
            (None::<u8>, exit)
        }),
{
    if exit.reason == VmExitReason::Preempted && exit.fault_info & 0x8000_0000 != 0 {
        let vector: u8 = (exit.fault_info % 0x100) as u8;
        (Some(vector), VmExit { fault_info: exit.fault_info & 0xffff_ffff_7fff_ffff, ..exit })
    } else {
        (None, exit)
    }
}

/// Which of two virtual CPUs is entered from an AP while the other is entered
/// beside it: the first, if it has an AP. Two on the same processor cannot run at
/// once.
pub fn pair_leader(first: Option<u32>, second: Option<u32>) -> (r: Result<bool, Error>)
    ensures
        r == (if first == second {
            Err::<bool, Error>(Error::InvalidState)
        } else {
            Ok(first is Some)
        }),
{
    match (first, second) {
        (None, None) => Err(Error::InvalidState),
        (Some(a), Some(b)) => if a == b {
            Err(Error::InvalidState)
        } else {
            Ok(true)
        },
        (Some(_), None) => Ok(true),
        (None, Some(_)) => Ok(false),
    }
}

/// An AP finds its entry point, its stack and its context where its startup code
/// looks for them.
pub proof fn law_parameters_are_found(code: Seq<u8>, p: StartupParameters)
    requires
        code.len() <= PARAMS,
    ensures
        u64_at(startup_page(code, p), 0x818) == p.entry,
        u64_at(startup_page(code, p), 0x828) == p.cr3,
        u64_at(startup_page(code, p), 0x840) == p.stack_top,
        u64_at(startup_page(code, p), 0x848) == p.context,
{
    let page = startup_page(code, p);
    let at: int = 0x818;
    assert(pointers(p).len() == 24 && registers(p).len() == 56);
    assert forall|i: int| 0 <= i < 56 implies #[trigger] page[at + i] == registers(p)[i] by {}
    assert(page.subrange(at, at + 8) =~= le64(p.entry));
    assert(page.subrange(at + 16, at + 24) =~= le64(p.cr3));
    assert(page.subrange(at + 40, at + 48) =~= le64(p.stack_top));
    assert(page.subrange(at + 48, at + 56) =~= le64(p.context));
    law_le64_reads_back(page, at, p.entry);
    law_le64_reads_back(page, at + 16, p.cr3);
    law_le64_reads_back(page, at + 40, p.stack_top);
    law_le64_reads_back(page, at + 48, p.context);
}

/// What each CPU register is loaded with: CR0 with monitoring on (bit 1), emulation and a
/// task switch off (bits 2 and 3) and the rest as on the host; CR4 with PAE and both SSE
/// bits (5, 9 and 10) on, XSAVE (bit 18) off and the rest as on the host; EFER as on the
/// host without the bit that the CPU sets itself (bit 10).
pub proof fn law_startup_registers_are_the_hosts(cr0: u64, cr4: u64, efer: u64)
    ensures
        startup_cr0(cr0) & 0xe == 0x2,
        startup_cr0(cr0) & !0xeu64 == cr0 & !0xeu64,
        startup_cr4(cr4) & 0x4_0620 == 0x620,
        startup_cr4(cr4) & !0x4_0620u64 == cr4 & !0x4_0620u64,
        startup_efer(efer) & 0x400 == 0,
        startup_efer(efer) & !0x400u64 == efer & !0x400u64,
{
    assert(((cr0 | 2) & 0xffff_ffff_ffff_fff3) & 0xe == 0x2 && ((cr0 | 2) & 0xffff_ffff_ffff_fff3)
        & !0xeu64 == cr0 & !0xeu64 && ((cr4 | 0x620) & 0xffff_ffff_fffb_ffff) & 0x4_0620 == 0x620 && ((
    cr4 | 0x620) & 0xffff_ffff_fffb_ffff) & !0x4_0620u64 == cr4 & !0x4_0620u64 && (efer
        & 0xffff_ffff_ffff_fbff) & 0x400 == 0 && (efer & 0xffff_ffff_ffff_fbff) & !0x400u64 == efer
        & !0x400u64) by (bit_vector);
}

/// The page that an AP starts in begins with its code. Behind it, at 0x800, stand the
/// pointer of a table of four descriptors at 0x850, the far pointers to the 32-bit and the
/// 64-bit part of the code, with selectors 8 and 24, and MXCSR; at 0x818 the registers; and
/// at 0x850 the table: nothing, 32-bit code, 32-bit data and 64-bit code.
#[verifier::spinoff_prover]
pub proof fn law_startup_page_is_laid_out(code: Seq<u8>, p: StartupParameters)
    requires
        code.len() <= 0x800,
        p.page < 0x10_0000,
        p.protected_mode_offset <= 0x800,
        p.long_mode_offset <= 0x800,
    ensures
        ({
            let page = startup_page(code, p);
            &&& page.len() == 4096
            &&& page.take(code.len() as int) == code
            &&& u16_at(page, 0x800) == 31
            &&& u32_at(page, 0x802) == p.page + 0x850
            &&& u32_at(page, 0x806) == p.page + p.protected_mode_offset
            &&& u16_at(page, 0x80a) == 8
            &&& u32_at(page, 0x80c) == p.page + p.long_mode_offset
            &&& u16_at(page, 0x810) == 24
            &&& u32_at(page, 0x812) == 0x1f80
            &&& u64_at(page, 0x820) == startup_cr0(p.cr0)
            &&& u64_at(page, 0x830) == startup_cr4(p.cr4)
            &&& u64_at(page, 0x838) == startup_efer(p.efer)
            &&& u64_at(page, 0x850) == 0
            &&& u64_at(page, 0x858) == 0x00cf_9a00_0000_ffff
            &&& u64_at(page, 0x860) == 0x00cf_9200_0000_ffff
            &&& u64_at(page, 0x868) == 0x00af_9a00_0000_ffff
        }),
{
    let page = startup_page(code, p);
    assert(le16(31).len() == 2 && pointers(p).len() == 24 && registers(p).len() == 56
        && segments().len() == 32);
    assert(page.len() == 4096);
    assert(page.take(code.len() as int) =~= code);
    let (a, b, c) = (pointers(p), registers(p), segments());
    assert forall|i: int| 0 <= i < 24 implies #[trigger] a[i] == page[0x800 + i] by {}
    assert forall|i: int| 0 <= i < 56 implies #[trigger] b[i] == page[0x818 + i] by {}
    assert forall|i: int| 0 <= i < 32 implies #[trigger] c[i] == page[0x850 + i] by {}
    lemma_startup_pointers(p);
    assert(page.subrange(0x802, 0x806) =~= a.subrange(2, 6));
    assert(page.subrange(0x806, 0x80a) =~= a.subrange(6, 10));
    assert(page.subrange(0x80c, 0x810) =~= a.subrange(12, 16));
    assert(page.subrange(0x812, 0x816) =~= a.subrange(18, 22));
    assert(a[0] == page[0x800] && a[1] == page[0x801] && a[10] == page[0x80a] && a[11]
        == page[0x80b] && a[16] == page[0x810] && a[17] == page[0x811]);
    law_le32_reads_back(page, 0x802, (p.page + 0x850) as u32);
    law_le32_reads_back(page, 0x806, (p.page + p.protected_mode_offset) as u32);
    law_le32_reads_back(page, 0x80c, (p.page + p.long_mode_offset) as u32);
    law_le32_reads_back(page, 0x812, 0x1f80);
    lemma_startup_registers(p);
    assert(page.subrange(0x820, 0x828) =~= b.subrange(8, 16));
    assert(page.subrange(0x830, 0x838) =~= b.subrange(24, 32));
    assert(page.subrange(0x838, 0x840) =~= b.subrange(32, 40));
    law_le64_reads_back(page, 0x820, startup_cr0(p.cr0));
    law_le64_reads_back(page, 0x830, startup_cr4(p.cr4));
    law_le64_reads_back(page, 0x838, startup_efer(p.efer));
    assert(page.subrange(0x850, 0x858) =~= le64(0));
    assert(page.subrange(0x858, 0x860) =~= le64(CODE_32));
    assert(page.subrange(0x860, 0x868) =~= le64(DATA_32));
    assert(page.subrange(0x868, 0x870) =~= le64(CODE_64));
    law_le64_reads_back(page, 0x850, 0);
    law_le64_reads_back(page, 0x858, CODE_32);
    law_le64_reads_back(page, 0x860, DATA_32);
    law_le64_reads_back(page, 0x868, CODE_64);
}

proof fn lemma_startup_pointers(p: StartupParameters)
    ensures
        pointers(p).subrange(2, 6) == le32((p.page + 0x850) as u32),
        pointers(p).subrange(6, 10) == le32((p.page + p.protected_mode_offset) as u32),
        pointers(p).subrange(12, 16) == le32((p.page + p.long_mode_offset) as u32),
        pointers(p).subrange(18, 22) == le32(0x1f80),
        pointers(p)[0] == 31 && pointers(p)[1] == 0 && pointers(p)[10] == 8 && pointers(p)[11] == 0
            && pointers(p)[16] == 24 && pointers(p)[17] == 0,
{
    let a = pointers(p);
    assert(a.subrange(2, 6) =~= le32((p.page + 0x850) as u32));
    assert(a.subrange(6, 10) =~= le32((p.page + p.protected_mode_offset) as u32));
    assert(a.subrange(12, 16) =~= le32((p.page + p.long_mode_offset) as u32));
    assert(a.subrange(18, 22) =~= le32(0x1f80));
}

proof fn lemma_startup_registers(p: StartupParameters)
    ensures
        registers(p).subrange(8, 16) == le64(startup_cr0(p.cr0)),
        registers(p).subrange(24, 32) == le64(startup_cr4(p.cr4)),
        registers(p).subrange(32, 40) == le64(startup_efer(p.efer)),
{
    let b = registers(p);
    assert(b.subrange(8, 16) =~= le64(startup_cr0(p.cr0)));
    assert(b.subrange(24, 32) =~= le64(startup_cr4(p.cr4)));
    assert(b.subrange(32, 40) =~= le64(startup_efer(p.efer)));
}

/// The host starts APs exactly where it knows its clock, its page tables lie below 4 GiB, it
/// has neither five-level paging (bit 12 of CR4) nor process contexts (bit 17), and its
/// APIC is enabled (bit 11).
pub proof fn law_hosts_that_can_start_processors(tsc_hz: u64, cr3: u64, cr4: u64, apic: u64)
    ensures
        can_start(tsc_hz, cr3, cr4, apic) <==> tsc_hz > 0 && cr3 < 0x1_0000_0000 && cr4 & 0x2_1000
            == 0 && apic & 0x800 != 0,
{
}

/// A deadline that lies ahead by less than half the clock's range has not passed, and one
/// that lies behind by less has, also where the clock wraps in between.
pub proof fn law_deadline_passes_once(start: u64, ticks: u64)
    requires
        0 < ticks < 0x8000_0000_0000_0000,
    ensures
        ({
            let deadline = ((start + ticks) % 0x1_0000_0000_0000_0000) as u64;
            &&& !has_passed(start, deadline)
            &&& has_passed(deadline, deadline)
            &&& has_passed(deadline, start)
        }),
{
}

/// The first Domain stays where mBoot runs; each of the next has the AP before it, as long
/// as there are any.
pub proof fn law_domains_take_processors_in_order(index: int, processors: int)
    ensures
        processor_of(0, processors) is None,
        1 <= index <= processors ==> processor_of(index, processors) == Some(index - 1),
        index > processors ==> processor_of(index, processors) is None,
        processor_of(index, processors) matches Some(ap) ==> 0 <= ap < processors,
{
}

} // verus!
