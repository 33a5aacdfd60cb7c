//! The Domains while they run: their exits, their ends and their restarts.

use vstd::prelude::*;

use crate::abi::{
    BootFramebuffer, DomainBootInfo, DomainCrashInfo, DOMAIN_CRASH_STATUS_CRASHED,
    DOMAIN_CRASH_STATUS_RESTARTED, HYPERCALL_SUCCESS,
};
use crate::cpuid::{features, query, CpuModel};
use crate::domain::{
    abi_backend, abi_domain_role, backend_number, role_number, Domain, DomainId, DomainRole,
    DomainState,
};
use crate::entropy::{derive_domain_entropy, domain_message_of};
use crate::event::{connect_error, fresh_endpoint, EventChannel, EventChannelTable};
use crate::grant::{ended, lists, swept, GrantMapping, GrantSlot, GrantTable};
use crate::halt::Stage;
use crate::layout::{
    device_window, domain_stack_pointer, grant_window, grant_window_start, is_supported_size,
    DEVICE_WINDOW_LIMIT, DEVICE_WINDOW_START, DOMAIN_BOOT_INFO_GPA, GRANT_WINDOW_BYTES,
};
use crate::manifest::{
    sha256_digest, ManifestEventChannel, ManifestImageFormat, ManifestRestartPolicy,
};
use crate::memory::isolation::are_apart;
use crate::memory::{entry, is_ram_page, lemma_ram_slot_mapped, ram_flags, ram_slot};
use crate::physical::PhysicalMemory;
use crate::smp::ResumeKind;
use crate::{Error, GuestBootMode, GuestConfig, VmExit, VmExitReason};

verus! {

/// A Domain that was started, with its one virtual CPU.
#[derive(Clone, Copy, Debug)]
pub struct RuntimeDomain {
    pub domain: Domain,
    pub guest: GuestConfig,
    /// The virtual CPU has been entered.
    pub started: bool,
    /// What its last hypercall returns.
    pub pending_result: u64,
    pub yield_count: u64,
    pub preemption_count: u64,
    /// The Domain has reported that it is up.
    pub ready: bool,
    /// The Domain sleeps until something happens.
    pub waiting: bool,
    pub resume_kind: ResumeKind,
    pub event_irq_enabled: bool,
    pub image_format: ManifestImageFormat,
    pub restart_policy: ManifestRestartPolicy,
    pub max_restarts: u8,
    pub restart_count: u32,
    pub crash_info: Option<DomainCrashInfo>,
}

impl RuntimeDomain {
    /// The Domain's memory is one that the launcher supports.
    pub open spec fn wf(self) -> bool {
        self.domain.nested_pages.wf() && is_supported_size(
            self.domain.nested_pages@.guest_pages as int,
        )
    }

    pub open spec fn memory_size(self) -> int {
        0x1000 * self.domain.nested_pages@.guest_pages
    }
}

pub open spec fn all_wf(domains: Seq<RuntimeDomain>) -> bool {
    forall|i: int| 0 <= i < domains.len() ==> (#[trigger] domains[i]).wf()
}

pub open spec fn boot_mode_of(format: ManifestImageFormat) -> GuestBootMode {
    match format {
        ManifestImageFormat::NativeElf => GuestBootMode::Long64,
        ManifestImageFormat::LinuxPvh => GuestBootMode::LinuxPvh32,
    }
}

/// Where a guest finds its boot information: a native kernel at a fixed place, a
/// PVH kernel where its loader put it.
pub open spec fn boot_info_of(format: ManifestImageFormat, loader_info: u64) -> u64 {
    match format {
        ManifestImageFormat::NativeElf => DOMAIN_BOOT_INFO_GPA,
        ManifestImageFormat::LinuxPvh => loader_info,
    }
}

/// The pages that a virtual CPU needs.
#[derive(Clone, Copy, Debug, PartialEq, Eq, Structural)]
pub struct VcpuPages {
    pub msr_permission_map: u64,
    pub msr_state_page: u64,
}

/// How often and when a Domain is started again.
#[derive(Clone, Copy, Debug, PartialEq, Eq, Structural)]
pub struct RestartRule {
    pub policy: ManifestRestartPolicy,
    pub max_restarts: u8,
}

/// Where a guest's kernel was loaded.
#[derive(Clone, Copy, Debug, PartialEq, Eq, Structural)]
pub struct LoadedKernel {
    pub page_table_root: u64,
    pub entry: u64,
    /// Where the loader put boot information.
    pub loader_info: u64,
}

impl RuntimeDomain {
    /// A Domain whose virtual CPU has not been entered yet.
    pub fn new(
        domain: Domain,
        format: ManifestImageFormat,
        kernel: LoadedKernel,
        pages: VcpuPages,
        restart: RestartRule,
    ) -> (r: Self)
        requires
            domain.nested_pages.wf(),
            is_supported_size(domain.nested_pages@.guest_pages as int),
        ensures
            r.wf(),
            r == (RuntimeDomain {
                domain,
                guest: GuestConfig {
                    boot_mode: boot_mode_of(format),
                    nested_root: domain.nested_pages.spec_hardware_root(),
                    page_table_root: kernel.page_table_root,
                    entry: kernel.entry,
                    stack: (device_window(r.memory_size()) - 16) as u64,
                    boot_info: boot_info_of(format, kernel.loader_info),
                    msr_permission_map: pages.msr_permission_map,
                    msr_state_page: pages.msr_state_page,
                },
                started: false,
                pending_result: HYPERCALL_SUCCESS,
                yield_count: 0,
                preemption_count: 0,
                ready: false,
                waiting: false,
                resume_kind: ResumeKind::Hypercall,
                event_irq_enabled: false,
                image_format: format,
                restart_policy: restart.policy,
                max_restarts: restart.max_restarts,
                restart_count: 0,
                crash_info: None,
            }),
    {
        let boot_mode = match format {
            ManifestImageFormat::NativeElf => GuestBootMode::Long64,
            ManifestImageFormat::LinuxPvh => GuestBootMode::LinuxPvh32,
        };
        let boot_info: u64 = match format {
            ManifestImageFormat::NativeElf => DOMAIN_BOOT_INFO_GPA,
            ManifestImageFormat::LinuxPvh => kernel.loader_info,
        };
        RuntimeDomain {
            domain,
            guest: GuestConfig {
                boot_mode,
                nested_root: domain.nested_pages.hardware_root(),
                page_table_root: kernel.page_table_root,
                entry: kernel.entry,
                stack: domain_stack_pointer(domain.nested_pages.guest_memory_size()),
                boot_info,
                msr_permission_map: pages.msr_permission_map,
                msr_state_page: pages.msr_state_page,
            },
            started: false,
            pending_result: HYPERCALL_SUCCESS,
            yield_count: 0,
            preemption_count: 0,
            ready: false,
            waiting: false,
            resume_kind: ResumeKind::Hypercall,
            event_irq_enabled: false,
            image_format: format,
            restart_policy: restart.policy,
            max_restarts: restart.max_restarts,
            restart_count: 0,
            crash_info: None,
        }
    }
}

/// What a native kernel is told when it starts: which Domain it is, where its
/// windows are and which start of the Domain this is.
pub fn domain_boot_info(
    runtime: &RuntimeDomain,
    boot_module: (u64, u64),
    entropy_root: &[u8; 32],
    framebuffer: Option<BootFramebuffer>,
) -> (r: DomainBootInfo)
    requires
        runtime.wf(),
    ensures
        r == (DomainBootInfo {
            domain_id: runtime.domain.id.value,
            vcpu_id: 0,
            backend: backend_number(runtime.domain.backend),
            role: role_number(runtime.domain.role),
            memory_size: runtime.memory_size() as u64,
            boot_module_start: boot_module.0,
            boot_module_size: boot_module.1,
            grant_window_start: grant_window(runtime.memory_size()) as u64,
            grant_window_size: GRANT_WINDOW_BYTES,
            device_window_start: DEVICE_WINDOW_START,
            device_window_size: (DEVICE_WINDOW_LIMIT - DEVICE_WINDOW_START) as u64,
            restart_count: runtime.restart_count,
            capabilities: runtime.domain.capabilities,
            entropy_seed: r.entropy_seed,
            framebuffer,
        }),
        r.entropy_seed@ == sha256_digest(
            domain_message_of(entropy_root@, runtime.domain.id.value, runtime.restart_count),
        ),
{
    let memory_size: u64 = runtime.domain.nested_pages.guest_memory_size();
    let entropy_seed = derive_domain_entropy(
        entropy_root,
        runtime.domain.id.value,
        runtime.restart_count,
    );
    DomainBootInfo {
        domain_id: runtime.domain.id.value,
        vcpu_id: 0,
        backend: abi_backend(runtime.domain.backend),
        role: abi_domain_role(runtime.domain.role),
        memory_size,
        boot_module_start: boot_module.0,
        boot_module_size: boot_module.1,
        grant_window_start: grant_window_start(memory_size),
        grant_window_size: GRANT_WINDOW_BYTES,
        device_window_start: DEVICE_WINDOW_START,
        device_window_size: DEVICE_WINDOW_LIMIT - DEVICE_WINDOW_START,
        restart_count: runtime.restart_count,
        capabilities: runtime.domain.capabilities,
        entropy_seed,
        framebuffer,
    }
}

/// How the virtual CPU goes on.
#[derive(Clone, Copy, Debug, PartialEq, Eq, Structural)]
pub enum Entry {
    /// For the first time.
    Start(GuestConfig),
    /// Behind an exit. A hypercall gives the value back.
    Resume { kind: ResumeKind, result: u64 },
}

/// What to do about an interrupt before the virtual CPU goes on.
#[derive(Clone, Copy, Debug, PartialEq, Eq, Structural)]
pub enum InterruptPlan {
    Nothing,
    Inject(u8),
    /// Wait until the guest takes interrupts.
    OpenWindow,
}

impl RuntimeDomain {
    /// Whether an interrupt may be given to the guest now. An instruction that is
    /// about to fault must fault first.
    pub fn takes_interrupts(&self) -> (r: bool)
        ensures
            r == (self.resume_kind != ResumeKind::GeneralProtection),
    {
        match self.resume_kind {
            ResumeKind::GeneralProtection => false,
            _ => true,
        }
    }

    /// Chooses what to do about the interrupt that waits, if one does.
    pub fn plan_interrupt(&self, pending: Option<u8>, can_inject: bool) -> (r: InterruptPlan)
        ensures
            r == (if self.resume_kind == ResumeKind::GeneralProtection {
                InterruptPlan::Nothing
            } else {
                match pending {
                    None => InterruptPlan::Nothing,
                    Some(vector) => if can_inject {
                        InterruptPlan::Inject(vector)
                    } else {
                        InterruptPlan::OpenWindow
                    },
                }
            }),
    {
        if !self.takes_interrupts() {
            return InterruptPlan::Nothing;
        }
        match pending {
            None => InterruptPlan::Nothing,
            Some(vector) => if can_inject {
                InterruptPlan::Inject(vector)
            } else {
                InterruptPlan::OpenWindow
            },
        }
    }

    /// The virtual CPU is entered.
    pub fn enter(&mut self) -> (r: Entry)
        ensures
            *final(self) == (RuntimeDomain { started: true, ..*old(self) }),
            r == (if old(self).started {
                Entry::Resume { kind: old(self).resume_kind, result: old(self).pending_result }
            } else {
                Entry::Start(old(self).guest)
            }),
    {
        if self.started {
            Entry::Resume { kind: self.resume_kind, result: self.pending_result }
        } else {
            self.started = true;
            Entry::Start(self.guest)
        }
    }
}

/// What an exit asks for.
#[derive(Clone, Copy, Debug, PartialEq, Eq, Structural)]
pub enum ExitAction {
    /// Nothing more; an interrupt of the device with this vector came with it.
    Continue { acknowledge: Option<u8> },
    /// Read a model-specific register for the guest.
    ReadMsr { msr: u32 },
    /// Write one.
    WriteMsr { msr: u32, word: u64 },
    /// Answer what the processor can do.
    Identify { leaf: u32, subleaf: u32 },
    /// The Domain cannot go on.
    Crash { raw_reason: u64, address: u64, info: u64 },
    /// The guest asks for something.
    Hypercall,
}

/// What an exit asks for.
pub open spec fn exit_action(exit: VmExit) -> ExitAction {
    match exit.reason {
        VmExitReason::Preempted => ExitAction::Continue {
            acknowledge: if exit.fault_info & 0x8000_0000 != 0 {
                Some((exit.fault_info & 0xff) as u8)
            } else {
                None
            },
        },
        VmExitReason::InterruptWindow => ExitAction::Continue { acknowledge: None },
        VmExitReason::Halt => ExitAction::Continue { acknowledge: None },
        VmExitReason::ControlRegisterWrite => ExitAction::Continue { acknowledge: None },
        VmExitReason::MsrRead => ExitAction::ReadMsr { msr: exit.msr },
        VmExitReason::MsrWrite => ExitAction::WriteMsr { msr: exit.msr, word: exit.msr_value },
        VmExitReason::Cpuid => ExitAction::Identify {
            leaf: exit.cpuid_leaf,
            subleaf: exit.cpuid_subleaf,
        },
        VmExitReason::NestedPageFault => ExitAction::Crash {
            raw_reason: exit.raw_reason,
            address: exit.fault_address,
            info: exit.fault_info,
        },
        VmExitReason::Hypercall => ExitAction::Hypercall,
    }
}

/// How the virtual CPU goes on behind an exit, as far as the exit itself tells.
pub open spec fn resume_after(exit: VmExit, before: ResumeKind) -> ResumeKind {
    match exit.reason {
        VmExitReason::Preempted => ResumeKind::WithoutAdvance,
        VmExitReason::InterruptWindow => ResumeKind::WithoutAdvance,
        VmExitReason::Halt => ResumeKind::Halted,
        VmExitReason::ControlRegisterWrite => ResumeKind::ControlRegisterWrite {
            register: (exit.fault_info & 0xf) as u8,
            value: exit.fault_address,
        },
        VmExitReason::Hypercall => ResumeKind::Hypercall,
        _ => before,
    }
}

impl RuntimeDomain {
    /// The virtual CPU has left the guest.
    pub fn exited(&mut self, exit: &VmExit) -> (r: ExitAction)
        requires
            old(self).preemption_count < u64::MAX,
        ensures
            r == exit_action(*exit),
            *final(self) == (RuntimeDomain {
                resume_kind: resume_after(*exit, old(self).resume_kind),
                preemption_count: if exit.reason == VmExitReason::Preempted {
                    (old(self).preemption_count + 1) as u64
                } else {
                    old(self).preemption_count
                },
                ..*old(self)
            }),
    {
        match exit.reason {
            VmExitReason::Preempted => {
                let acknowledge: Option<u8> = if exit.fault_info & 0x8000_0000 != 0 {
                    Some((exit.fault_info & 0xff) as u8)
                } else {
                    None
                };
                self.preemption_count = self.preemption_count + 1;
                self.resume_kind = ResumeKind::WithoutAdvance;
                ExitAction::Continue { acknowledge }
            },
            VmExitReason::InterruptWindow => {
                self.resume_kind = ResumeKind::WithoutAdvance;
                ExitAction::Continue { acknowledge: None }
            },
            VmExitReason::Halt => {
                self.resume_kind = ResumeKind::Halted;
                ExitAction::Continue { acknowledge: None }
            },
            VmExitReason::ControlRegisterWrite => {
                self.resume_kind = ResumeKind::ControlRegisterWrite {
                    register: (exit.fault_info & 0xf) as u8,
                    value: exit.fault_address,
                };
                ExitAction::Continue { acknowledge: None }
            },
            VmExitReason::MsrRead => ExitAction::ReadMsr { msr: exit.msr },
            VmExitReason::MsrWrite => ExitAction::WriteMsr { msr: exit.msr, word: exit.msr_value },
            VmExitReason::Cpuid => ExitAction::Identify {
                leaf: exit.cpuid_leaf,
                subleaf: exit.cpuid_subleaf,
            },
            VmExitReason::NestedPageFault => ExitAction::Crash {
                raw_reason: exit.raw_reason,
                address: exit.fault_address,
                info: exit.fault_info,
            },
            VmExitReason::Hypercall => {
                self.resume_kind = ResumeKind::Hypercall;
                ExitAction::Hypercall
            },
        }
    }

    /// A register was read: from the interrupt controller, or else from the guest's
    /// own state. An unknown register faults.
    pub fn msr_read(&mut self, controller: Option<u64>, guest: Option<u64>)
        ensures
            *final(self) == (RuntimeDomain {
                resume_kind: match controller {
                    Some(word) => ResumeKind::MsrRead(word),
                    None => match guest {
                        Some(word) => ResumeKind::MsrRead(word),
                        None => ResumeKind::GeneralProtection,
                    },
                },
                ..*old(self)
            }),
    {
        self.resume_kind = match controller {
            Some(word) => ResumeKind::MsrRead(word),
            None => match guest {
                Some(word) => ResumeKind::MsrRead(word),
                None => ResumeKind::GeneralProtection,
            },
        };
    }

    /// A register was written by one of the two, or by neither.
    pub fn msr_written(&mut self, controller: bool, guest: bool)
        ensures
            *final(self) == (RuntimeDomain {
                resume_kind: if controller || guest {
                    ResumeKind::MsrWrite
                } else {
                    ResumeKind::GeneralProtection
                },
                ..*old(self)
            }),
    {
        self.resume_kind = if controller || guest {
            ResumeKind::MsrWrite
        } else {
            ResumeKind::GeneralProtection
        };
    }

    /// Answers what the processor of the Domain can do.
    pub fn identify(&mut self, leaf: u32, subleaf: u32, tsc_frequency: Option<u64>)
        requires
            old(self).wf(),
        ensures
            *final(self) == (RuntimeDomain {
                resume_kind: ResumeKind::Cpuid(
                    features(
                        leaf,
                        subleaf,
                        CpuModel {
                            apic_id: 0,
                            vcpu_count: 1,
                            tsc_frequency_khz: kilohertz(tsc_frequency),
                            hypervisor_backend: backend_number(old(self).domain.backend),
                            grant_window_start: grant_window(old(self).memory_size()) as u64,
                            grant_window_size: GRANT_WINDOW_BYTES,
                        },
                    ),
                ),
                ..*old(self)
            }),
    {
        let memory_size: u64 = self.domain.nested_pages.guest_memory_size();
        let khz: u32 = match tsc_frequency {
            Some(hz) => if hz / 1000 <= 0xffff_ffff {
                (hz / 1000) as u32
            } else {
                1_000_000
            },
            None => 1_000_000,
        };
        self.resume_kind = ResumeKind::Cpuid(
            query(
                leaf,
                subleaf,
                0,
                1,
                khz,
                abi_backend(self.domain.backend),
                grant_window_start(memory_size),
                GRANT_WINDOW_BYTES,
            ),
        );
    }
}

/// The frequency that a guest is told, a gigahertz where it is not known.
pub open spec fn kilohertz(tsc_frequency: Option<u64>) -> u32 {
    match tsc_frequency {
        Some(hz) => if hz / 1000 <= 0xffff_ffff {
            (hz / 1000) as u32
        } else {
            1_000_000
        },
        None => 1_000_000,
    }
}

/// What a report of an exit that nobody handles holds of the guest's paging: the
/// low halves of its control registers.
pub fn paging_state(cr0: u64, cr3: u64) -> (r: u64)
    ensures
        r == (cr0 % 0x1_0000_0000) * 0x1_0000_0000 + cr3 % 0x1_0000_0000,
{
    (cr0 % 0x1_0000_0000) * 0x1_0000_0000 + cr3 % 0x1_0000_0000
}

/// The first Domain from `from` on with the number, or the length.
pub open spec fn index_of_domain(domains: Seq<RuntimeDomain>, id: u32, from: int) -> int
    decreases domains.len() - from,
{
    if from >= domains.len() || domains[from].domain.id.value == id {
        from
    } else {
        index_of_domain(domains, id, from + 1)
    }
}

/// Finds a Domain by its number.
pub fn find_domain(domains: &Vec<RuntimeDomain>, id: u32) -> (r: Option<usize>)
    ensures
        r == (if index_of_domain(domains@, id, 0) < domains@.len() {
            Some(index_of_domain(domains@, id, 0) as usize)
        } else {
            None
        }),
        r matches Some(i) ==> i == index_of_domain(domains@, id, 0) && i < domains@.len()
            && domains@[i as int].domain.id.value == id,
{
    let mut i: usize = 0;
    while i < domains.len()
        invariant
            i <= domains.len(),
            index_of_domain(domains@, id, 0) == index_of_domain(domains@, id, i as int),
        decreases domains.len() - i,
    {
        if domains[i].domain.id.value == id {
            return Some(i);
        }
        i += 1;
    }
    None
}

/// Whether a Domain with the number runs.
pub open spec fn is_running(domains: Seq<RuntimeDomain>, id: u32) -> bool {
    exists|i: int|
        0 <= i < domains.len() && (#[trigger] domains[i]).domain.id.value == id
            && domains[i].domain.state == DomainState::Running
}

pub fn domain_is_running(domains: &Vec<RuntimeDomain>, id: u32) -> (r: bool)
    ensures
        r == is_running(domains@, id),
{
    let mut i: usize = 0;
    while i < domains.len()
        invariant
            i <= domains.len(),
            forall|j: int|
                0 <= j < i ==> !((#[trigger] domains@[j]).domain.id.value == id
                    && domains@[j].domain.state == DomainState::Running),
        decreases domains.len() - i,
    {
        if domains[i].domain.id.value == id && domains[i].domain.state == DomainState::Running {
            assert(domains@[i as int].domain.id.value == id);
            return true;
        }
        i += 1;
    }
    false
}

/// The Domain as it is once it has crashed.
pub open spec fn crashed(
    runtime: RuntimeDomain,
    raw_reason: u64,
    address: u64,
    info: u64,
) -> RuntimeDomain {
    RuntimeDomain {
        domain: Domain { state: DomainState::Crashed, ..runtime.domain },
        waiting: false,
        crash_info: Some(
            DomainCrashInfo {
                domain_id: runtime.domain.id.value,
                status: DOMAIN_CRASH_STATUS_CRASHED,
                restart_count: next_restart(runtime.restart_count),
                raw_reason,
                fault_address: address,
                fault_info: info,
            },
        ),
        ..runtime
    }
}

pub open spec fn next_restart(count: u32) -> u32 {
    if count < u32::MAX {
        (count + 1) as u32
    } else {
        u32::MAX
    }
}

/// Takes a Domain out of the schedule that cannot go on, and records why. Only a
/// running Domain can crash.
pub fn isolate_crashed_domain(
    domains: &mut Vec<RuntimeDomain>,
    runnable: &mut Vec<bool>,
    index: usize,
    raw_reason: u64,
    address: u64,
    info: u64,
) -> (r: Result<(), Stage>)
    requires
        index < old(domains)@.len(),
        old(runnable)@.len() == old(domains)@.len(),
    ensures
        if old(domains)@[index as int].domain.state == DomainState::Running {
            &&& r == Ok::<(), Stage>(())
            &&& final(domains)@ == old(domains)@.update(
                index as int,
                crashed(old(domains)@[index as int], raw_reason, address, info),
            )
            &&& final(runnable)@ == old(runnable)@.update(index as int, false)
        } else {
            &&& r == Err::<(), Stage>(Stage::DomainCrashTransition)
            &&& final(domains)@ == old(domains)@
            &&& final(runnable)@ == old(runnable)@
        },
{
    let mut runtime = domains[index];
    if runtime.domain.mark_crashed().is_err() {
        return Err(Stage::DomainCrashTransition);
    }
    runtime.waiting = false;
    runtime.crash_info = Some(
        DomainCrashInfo {
            domain_id: runtime.domain.id.value,
            status: DOMAIN_CRASH_STATUS_CRASHED,
            restart_count: runtime.restart_count.saturating_add(1),
            raw_reason,
            fault_address: address,
            fault_info: info,
        },
    );
    domains.set(index, runtime);
    runnable.set(index, false);
    Ok(())
}

/// Whether a Domain that crashed, or that ended by itself, starts again. Only
/// applications do, and only as often as the manifest says.
pub open spec fn restarts(runtime: RuntimeDomain, after_crash: bool) -> bool {
    &&& runtime.domain.role == DomainRole::Application
    &&& runtime.restart_policy == ManifestRestartPolicy::Always || after_crash
        && runtime.restart_policy == ManifestRestartPolicy::OnFailure
    &&& runtime.restart_count < runtime.max_restarts
}

impl RuntimeDomain {
    pub fn should_restart(&self, after_crash: bool) -> (r: bool)
        ensures
            r == restarts(*self, after_crash),
    {
        let policy_allows = match self.restart_policy {
            ManifestRestartPolicy::Always => true,
            ManifestRestartPolicy::OnFailure => after_crash,
            ManifestRestartPolicy::Never => false,
        };
        self.domain.role == DomainRole::Application && policy_allows && self.restart_count
            < self.max_restarts as u32
    }
}

/// Takes a Domain out of the schedule that has ended by itself.
pub fn stop_domain(
    domains: &mut Vec<RuntimeDomain>,
    runnable: &mut Vec<bool>,
    index: usize,
) -> (r: Result<(), Stage>)
    requires
        index < old(domains)@.len(),
        old(runnable)@.len() == old(domains)@.len(),
    ensures
        ({
            let before = old(domains)@[index as int];
            if before.domain.state == DomainState::Running {
                &&& r == Ok::<(), Stage>(())
                &&& final(domains)@ == old(domains)@.update(
                    index as int,
                    RuntimeDomain {
                        domain: Domain { state: DomainState::Stopped, ..before.domain },
                        ..before
                    },
                )
                &&& final(runnable)@ == old(runnable)@.update(index as int, false)
            } else {
                &&& r == Err::<(), Stage>(Stage::DomainStop)
                &&& final(domains)@ == old(domains)@
                &&& final(runnable)@ == old(runnable)@
            }
        }),
{
    let mut runtime = domains[index];
    if runtime.domain.stop().is_err() {
        return Err(Stage::DomainStop);
    }
    domains.set(index, runtime);
    runnable.set(index, false);
    Ok(())
}

/// The Domain as it is once its kernel was loaded anew.
pub open spec fn restarted(runtime: RuntimeDomain, kernel: LoadedKernel) -> RuntimeDomain {
    RuntimeDomain {
        domain: Domain { state: DomainState::Running, ..runtime.domain },
        guest: GuestConfig {
            page_table_root: kernel.page_table_root,
            entry: kernel.entry,
            stack: (device_window(runtime.memory_size()) - 16) as u64,
            boot_info: boot_info_of(runtime.image_format, kernel.loader_info),
            ..runtime.guest
        },
        started: false,
        pending_result: HYPERCALL_SUCCESS,
        yield_count: 0,
        preemption_count: 0,
        ready: false,
        waiting: false,
        resume_kind: ResumeKind::Hypercall,
        event_irq_enabled: false,
        restart_count: next_restart(runtime.restart_count),
        crash_info: match runtime.crash_info {
            None => None,
            Some(info) => Some(
                DomainCrashInfo {
                    restart_count: next_restart(runtime.restart_count),
                    status: DOMAIN_CRASH_STATUS_RESTARTED,
                    ..info
                },
            ),
        },
        ..runtime
    }
}

/// Starts a Domain again that has ended.
pub fn restart_domain(
    domains: &mut Vec<RuntimeDomain>,
    runnable: &mut Vec<bool>,
    index: usize,
    kernel: LoadedKernel,
) -> (r: Result<(), Stage>)
    requires
        index < old(domains)@.len(),
        old(runnable)@.len() == old(domains)@.len(),
        old(domains)@[index as int].wf(),
    ensures
        ({
            let before = old(domains)@[index as int];
            if before.domain.state == DomainState::Stopped || before.domain.state
                == DomainState::Crashed {
                &&& r == Ok::<(), Stage>(())
                &&& final(domains)@ == old(domains)@.update(
                    index as int,
                    restarted(before, kernel),
                )
                &&& final(runnable)@ == old(runnable)@.update(index as int, true)
            } else {
                &&& r == Err::<(), Stage>(Stage::DomainRestartTransition)
                &&& final(domains)@ == old(domains)@
                &&& final(runnable)@ == old(runnable)@
            }
        }),
{
    let mut runtime = domains[index];
    if runtime.domain.prepare_restart().is_err() {
        return Err(Stage::DomainRestartTransition);
    }
    if runtime.domain.start().is_err() {
        return Err(Stage::DomainRestart);
    }
    runtime.restart_count = runtime.restart_count.saturating_add(1);
    runtime.guest.page_table_root = kernel.page_table_root;
    runtime.guest.entry = kernel.entry;
    runtime.guest.stack = domain_stack_pointer(runtime.domain.nested_pages.guest_memory_size());
    runtime.guest.boot_info = match runtime.image_format {
        ManifestImageFormat::NativeElf => DOMAIN_BOOT_INFO_GPA,
        ManifestImageFormat::LinuxPvh => kernel.loader_info,
    };
    runtime.started = false;
    runtime.pending_result = HYPERCALL_SUCCESS;
    runtime.yield_count = 0;
    runtime.preemption_count = 0;
    runtime.ready = false;
    runtime.waiting = false;
    runtime.resume_kind = ResumeKind::Hypercall;
    runtime.event_irq_enabled = false;
    runtime.crash_info = match runtime.crash_info {
        None => None,
        Some(info) => Some(
            DomainCrashInfo {
                restart_count: runtime.restart_count,
                status: DOMAIN_CRASH_STATUS_RESTARTED,
                ..info
            },
        ),
    };
    domains.set(index, runtime);
    runnable.set(index, true);
    Ok(())
}

/// The System Domain, if it runs: it has to learn of a crash.
pub open spec fn system_domain(domains: Seq<RuntimeDomain>, from: int) -> int
    decreases domains.len() - from,
{
    if from >= domains.len() || domains[from].domain.role == DomainRole::System
        && domains[from].domain.state == DomainState::Running {
        from
    } else {
        system_domain(domains, from + 1)
    }
}

/// Which Domain gets the management interrupt.
pub fn notify_system_domain(domains: &Vec<RuntimeDomain>) -> (r: Option<usize>)
    ensures
        r == (if system_domain(domains@, 0) < domains@.len() {
            Some(system_domain(domains@, 0) as usize)
        } else {
            None
        }),
        r matches Some(i) ==> i == system_domain(domains@, 0) && i < domains@.len(),
{
    let mut i: usize = 0;
    while i < domains.len()
        invariant
            i <= domains.len(),
            system_domain(domains@, 0) == system_domain(domains@, i as int),
        decreases domains.len() - i,
    {
        if domains[i].domain.role == DomainRole::System && domains[i].domain.state
            == DomainState::Running {
            return Some(i);
        }
        i += 1;
    }
    None
}

/// A crash is recorded for the System Domain and the Domain cannot be scheduled; no
/// other Domain changes.
pub proof fn law_crash_touches_one_domain(
    domains: Seq<RuntimeDomain>,
    runnable: Seq<bool>,
    index: int,
    raw_reason: u64,
    address: u64,
    info: u64,
    other: int,
)
    requires
        0 <= index < domains.len(),
        runnable.len() == domains.len(),
        0 <= other < domains.len(),
    ensures
        ({
            let after = domains.update(
                index,
                crashed(domains[index], raw_reason, address, info),
            );
            let ready = runnable.update(index, false);
            &&& after[index].domain.state == DomainState::Crashed
            &&& after[index].crash_info is Some
            &&& !ready[index]
            &&& other != index ==> after[other] == domains[other] && ready[other] == runnable[other]
        }),
{
}

/// A Domain that is restarted after a crash keeps its identity, its rights and its
/// memory, and the record of the crash says that it runs again.
pub proof fn law_restart_keeps_the_domain(
    runtime: RuntimeDomain,
    raw_reason: u64,
    address: u64,
    info: u64,
    kernel: LoadedKernel,
)
    ensures
        ({
            let after = restarted(crashed(runtime, raw_reason, address, info), kernel);
            &&& after.domain.id == runtime.domain.id
            &&& after.domain.role == runtime.domain.role
            &&& after.domain.capabilities == runtime.domain.capabilities
            &&& after.domain.nested_pages == runtime.domain.nested_pages
            &&& after.domain.state == DomainState::Running
            &&& after.crash_info == Some(
                DomainCrashInfo {
                    domain_id: runtime.domain.id.value,
                    status: DOMAIN_CRASH_STATUS_RESTARTED,
                    restart_count: after.restart_count,
                    raw_reason,
                    fault_address: address,
                    fault_info: info,
                },
            )
            &&& after.restart_count == next_restart(runtime.restart_count)
        }),
{
}

/// How often a Domain was restarted, after `n` ends of it, crashes or not.
pub open spec fn restarts_after(runtime: RuntimeDomain, crashes: Seq<bool>) -> int
    decreases crashes.len(),
{
    if crashes.len() == 0 {
        runtime.restart_count as int
    } else {
        let count = restarts_after(runtime, crashes.drop_last());
        if restarts(
            RuntimeDomain { restart_count: count as u32, ..runtime },
            crashes.last(),
        ) {
            count + 1
        } else {
            count
        }
    }
}

/// However often a Domain ends, it is never restarted more often than the manifest
/// allows, and a Domain that is no application never is.
pub proof fn law_restarts_are_bounded(runtime: RuntimeDomain, crashes: Seq<bool>)
    requires
        runtime.restart_count == 0,
    ensures
        0 <= restarts_after(runtime, crashes) <= runtime.max_restarts,
        runtime.domain.role != DomainRole::Application ==> restarts_after(runtime, crashes) == 0,
        runtime.restart_policy == ManifestRestartPolicy::Never ==> restarts_after(runtime, crashes)
            == 0,
    decreases crashes.len(),
{
    if crashes.len() > 0 {
        law_restarts_are_bounded(runtime, crashes.drop_last());
    }
}

/// When a Domain starts again: an application that has restarts left does after every end
/// if its policy is to restart always, after a crash alone if its policy is to restart on
/// failure, and never else; any other Domain, or one without a restart left, never does.
pub proof fn law_restart_follows_the_policy(runtime: RuntimeDomain, after_crash: bool)
    ensures
        runtime.domain.role != DomainRole::Application ==> !restarts(runtime, after_crash),
        runtime.restart_count >= runtime.max_restarts ==> !restarts(runtime, after_crash),
        runtime.domain.role == DomainRole::Application && runtime.restart_count
            < runtime.max_restarts ==> match runtime.restart_policy {
            ManifestRestartPolicy::Always => restarts(runtime, true) && restarts(runtime, false),
            ManifestRestartPolicy::OnFailure => restarts(runtime, true) && !restarts(runtime, false),
            ManifestRestartPolicy::Never => !restarts(runtime, true) && !restarts(runtime, false),
        },
{
}

/// How many of the ends were crashes.
pub open spec fn crash_count(crashes: Seq<bool>) -> int
    decreases crashes.len(),
{
    if crashes.len() == 0 {
        0
    } else {
        crash_count(crashes.drop_last()) + if crashes.last() {
            1int
        } else {
            0
        }
    }
}

/// An application is restarted exactly as often as its policy asks for, up to what the
/// manifest allows: with the policy to restart always once for every end of it, and with
/// the policy to restart on failure once for every crash.
pub proof fn law_restarts_are_owed(runtime: RuntimeDomain, crashes: Seq<bool>)
    requires
        runtime.restart_count == 0,
        runtime.domain.role == DomainRole::Application,
    ensures
        runtime.restart_policy == ManifestRestartPolicy::Always ==> restarts_after(runtime, crashes)
            == (if crashes.len() < runtime.max_restarts {
            crashes.len() as int
        } else {
            runtime.max_restarts as int
        }),
        runtime.restart_policy == ManifestRestartPolicy::OnFailure ==> restarts_after(
            runtime,
            crashes,
        ) == (if crash_count(crashes) < runtime.max_restarts {
            crash_count(crashes)
        } else {
            runtime.max_restarts as int
        }),
        0 <= crash_count(crashes) <= crashes.len(),
    decreases crashes.len(),
{
    if crashes.len() > 0 {
        law_restarts_are_owed(runtime, crashes.drop_last());
        law_restarts_are_bounded(runtime, crashes.drop_last());
    }
}

/// The Domain across from `id` in a channel of the manifest.
pub open spec fn peer_in(channel: ManifestEventChannel, id: u32) -> u32 {
    if channel.domain_a == id {
        channel.domain_b
    } else {
        channel.domain_a
    }
}

/// Whether the channel has to be connected again when the Domain `id` is restarted.
pub open spec fn is_reconnected(
    domains: Seq<RuntimeDomain>,
    id: u32,
    channel: ManifestEventChannel,
) -> bool {
    (channel.domain_a == id || channel.domain_b == id) && is_running(domains, peer_in(channel, id))
}

/// One channel of the manifest, connected.
pub open spec fn connected(s: Seq<EventChannel>, channel: ManifestEventChannel) -> (
    bool,
    Seq<EventChannel>,
) {
    if connect_error(
        s,
        DomainId { value: channel.domain_a },
        channel.port_a,
        DomainId { value: channel.domain_b },
        channel.port_b,
    ) is None {
        (
            true,
            s.push(
                EventChannel {
                    a: fresh_endpoint(DomainId { value: channel.domain_a }, channel.port_a),
                    b: fresh_endpoint(DomainId { value: channel.domain_b }, channel.port_b),
                },
            ),
        )
    } else {
        (false, s)
    }
}

/// The first `n` channels of the manifest that the Domain `id` needs, connected in
/// order, up to the first that cannot be.
pub open spec fn reconnected(
    channels: Seq<ManifestEventChannel>,
    domains: Seq<RuntimeDomain>,
    id: u32,
    s: Seq<EventChannel>,
    n: int,
) -> (bool, Seq<EventChannel>)
    decreases n,
{
    if n <= 0 {
        (true, s)
    } else {
        let (ok, t) = reconnected(channels, domains, id, s, n - 1);
        if !ok || !is_reconnected(domains, id, channels[n - 1]) {
            (ok, t)
        } else {
            connected(t, channels[n - 1])
        }
    }
}

/// Connects the channels of a Domain that was restarted with every Domain that
/// runs.
pub fn reconnect_domain_channels(
    index: usize,
    domains: &Vec<RuntimeDomain>,
    table: &mut EventChannelTable,
    channels: &Vec<ManifestEventChannel>,
) -> (r: Result<(), Stage>)
    requires
        index < domains@.len(),
        old(table).wf(),
    ensures
        final(table).wf(),
        ({
            let (ok, s) = reconnected(
                channels@,
                domains@,
                domains@[index as int].domain.id.value,
                old(table)@,
                channels@.len() as int,
            );
            &&& final(table)@ == s
            &&& r == (if ok {
                Ok::<(), Stage>(())
            } else {
                Err(Stage::EventChannelReconnect)
            })
        }),
{
    let id: u32 = domains[index].domain.id.value;
    let ghost before = table@;
    let mut n: usize = 0;
    while n < channels.len()
        invariant
            n <= channels.len(),
            before == old(table)@,
            index < domains@.len(),
            id == domains@[index as int].domain.id.value,
            table.wf(),
            reconnected(channels@, domains@, id, before, n as int) == (true, table@),
        decreases channels.len() - n,
    {
        let channel = channels[n];
        let peer: u32 = if channel.domain_a == id {
            channel.domain_b
        } else {
            channel.domain_a
        };
        if (channel.domain_a == id || channel.domain_b == id) && domain_is_running(domains, peer) {
            if table.connect(
                DomainId::new(channel.domain_a),
                channel.port_a,
                DomainId::new(channel.domain_b),
                channel.port_b,
            ).is_err() {
                proof {
                    lemma_failed_connection_is_final(
                        channels@,
                        domains@,
                        id,
                        before,
                        n + 1,
                        channels@.len() as int,
                    );
                }
                return Err(Stage::EventChannelReconnect);
            }
        }
        n += 1;
    }
    Ok(())
}

proof fn lemma_failed_connection_is_final(
    channels: Seq<ManifestEventChannel>,
    domains: Seq<RuntimeDomain>,
    id: u32,
    s: Seq<EventChannel>,
    n: int,
    m: int,
)
    requires
        0 <= n <= m,
        !reconnected(channels, domains, id, s, n).0,
    ensures
        reconnected(channels, domains, id, s, m) == reconnected(channels, domains, id, s, n),
    decreases m - n,
{
    if n < m {
        lemma_failed_connection_is_final(channels, domains, id, s, n, m - 1);
    }
}

/// The first `n` channels of the manifest connected in order, up to the first that
/// cannot be.
pub open spec fn all_connected(
    channels: Seq<ManifestEventChannel>,
    s: Seq<EventChannel>,
    n: int,
) -> (bool, Seq<EventChannel>)
    decreases n,
{
    if n <= 0 {
        (true, s)
    } else {
        let (ok, t) = all_connected(channels, s, n - 1);
        if !ok {
            (ok, t)
        } else {
            connected(t, channels[n - 1])
        }
    }
}

/// Connects every channel of the manifest.
pub fn connect_channels(
    table: &mut EventChannelTable,
    channels: &Vec<ManifestEventChannel>,
) -> (r: Result<(), Stage>)
    requires
        old(table).wf(),
    ensures
        final(table).wf(),
        ({
            let (ok, s) = all_connected(channels@, old(table)@, channels@.len() as int);
            &&& final(table)@ == s
            &&& r == (if ok {
                Ok::<(), Stage>(())
            } else {
                Err(Stage::EventChannelManifest)
            })
        }),
{
    let ghost before = table@;
    let mut n: usize = 0;
    while n < channels.len()
        invariant
            n <= channels.len(),
            before == old(table)@,
            table.wf(),
            all_connected(channels@, before, n as int) == (true, table@),
        decreases channels.len() - n,
    {
        let channel = channels[n];
        if table.connect(
            DomainId::new(channel.domain_a),
            channel.port_a,
            DomainId::new(channel.domain_b),
            channel.port_b,
        ).is_err() {
            proof {
                lemma_failed_manifest_is_final(channels@, before, n + 1, channels@.len() as int);
            }
            return Err(Stage::EventChannelManifest);
        }
        n += 1;
    }
    Ok(())
}

proof fn lemma_failed_manifest_is_final(
    channels: Seq<ManifestEventChannel>,
    s: Seq<EventChannel>,
    n: int,
    m: int,
)
    requires
        0 <= n <= m,
        !all_connected(channels, s, n).0,
    ensures
        all_connected(channels, s, m) == all_connected(channels, s, n),
    decreases m - n,
{
    if n < m {
        lemma_failed_manifest_is_final(channels, s, n, m - 1);
    }
}

/// Gives a pending device interrupt to its Domain, which it wakes. The Domain that
/// owns the function is known.
pub fn route_interrupt(domains: &mut Vec<RuntimeDomain>, runnable: &mut Vec<bool>, domain_id: u32)
    -> (r: Result<usize, Stage>)
    requires
        old(runnable)@.len() == old(domains)@.len(),
    ensures
        ({
            let target = index_of_domain(old(domains)@, domain_id, 0);
            if target >= old(domains)@.len() {
                &&& r == Err::<usize, Stage>(Stage::PciIrqRouting)
                &&& final(domains)@ == old(domains)@
                &&& final(runnable)@ == old(runnable)@
            } else {
                &&& r == Ok::<usize, Stage>(target as usize)
                &&& final(domains)@ == old(domains)@.update(
                    target,
                    RuntimeDomain { waiting: false, ..old(domains)@[target] },
                )
                &&& final(runnable)@ == old(runnable)@.update(target, true)
            }
        }),
{
    match find_domain(domains, domain_id) {
        None => Err(Stage::PciIrqRouting),
        Some(target) => {
            let mut runtime = domains[target];
            runtime.waiting = false;
            domains.set(target, runtime);
            runnable.set(target, true);
            Ok(target)
        },
    }
}

/// A page of a Domain's own RAM that comes back where a grant was mapped.
#[derive(Clone, Copy, Debug, PartialEq, Eq, Structural)]
pub struct RestoredPage {
    pub target: usize,
    pub page: u64,
}

/// The pages of the first `n` mappings that come back, up to the first mapping
/// whose target is unknown.
pub open spec fn restored_pages(
    domains: Seq<RuntimeDomain>,
    mappings: Seq<GrantMapping>,
    n: int,
) -> (bool, Seq<RestoredPage>)
    decreases n,
{
    if n <= 0 {
        (true, Seq::empty())
    } else {
        let (ok, pages) = restored_pages(domains, mappings, n - 1);
        let target = index_of_domain(domains, mappings[n - 1].target.value, 0);
        if !ok {
            (ok, pages)
        } else if target < domains.len() {
            (
                true,
                pages.push(
                    RestoredPage { target: target as usize, page: mappings[n - 1].target_page },
                ),
            )
        } else {
            (false, pages)
        }
    }
}

/// Every page belongs to one of the Domains.
pub open spec fn targets_known(domains: Seq<RuntimeDomain>, pages: Seq<RestoredPage>) -> bool {
    forall|i: int| 0 <= i < pages.len() ==> (#[trigger] pages[i]).target < domains.len()
}

/// Ends the grants of a Domain that has stopped or crashed. Gives the pages that
/// come back, in the order of the grants. Every target is known.
pub fn cleanup_domain_grants(
    domains: &Vec<RuntimeDomain>,
    index: usize,
    grants: &mut GrantTable,
) -> (r: (Vec<RestoredPage>, Option<Stage>))
    requires
        index < domains@.len(),
        old(grants).wf(),
    ensures
        final(grants).wf(),
        ({
            let id = domains@[index as int].domain.id;
            let crashed = domains@[index as int].domain.state == DomainState::Crashed;
            let mappings = ended(old(grants)@, id, crashed, 64);
            let (ok, pages) = restored_pages(domains@, mappings, mappings.len() as int);
            &&& final(grants)@ == old(grants)@.map_values(
                |slot: GrantSlot| swept(slot, id, crashed),
            )
            &&& r.0@ == pages
            &&& r.1 == (if ok {
                None
            } else {
                Some(Stage::GrantCleanup)
            })
        }),
        targets_known(domains@, r.0@),
{
    let id = domains[index].domain.id;
    let crashed = domains[index].domain.state == DomainState::Crashed;
    let ghost m = ended(grants@, id, crashed, 64);
    let mappings: [Option<GrantMapping>; 64] = if crashed {
        grants.cleanup_crashed_domain(id)
    } else {
        grants.cleanup_domain(id)
    };
    let mut pages: Vec<RestoredPage> = Vec::new();
    let mut n: usize = 0;
    while n < 64
        invariant
            n <= 64,
            lists(mappings@, m),
            restored_pages(
                domains@,
                m,
                if n < m.len() {
                    n as int
                } else {
                    m.len() as int
                },
            ) == (true, pages@),
            targets_known(domains@, pages@),
            grants.wf(),
            index < domains@.len(),
            id == domains@[index as int].domain.id,
            crashed == (domains@[index as int].domain.state == DomainState::Crashed),
            m == ended(old(grants)@, id, crashed, 64),
            grants@ == old(grants)@.map_values(|slot: GrantSlot| swept(slot, id, crashed)),
        decreases 64 - n,
    {
        if let Some(mapping) = mappings[n] {
            assert(mappings@[n as int] == Some(m[n as int]));
            match find_domain(domains, mapping.target.value) {
                None => {
                    proof {
                        lemma_unknown_target_is_final(domains@, m, n + 1, m.len() as int);
                    }
                    return (pages, Some(Stage::GrantCleanup));
                },
                Some(target) => {
                    pages.push(RestoredPage { target, page: mapping.target_page });
                },
            }
        } else {
            assert(mappings@[n as int] is None);
        }
        n += 1;
    }
    (pages, None)
}

proof fn lemma_unknown_target_is_final(
    domains: Seq<RuntimeDomain>,
    mappings: Seq<GrantMapping>,
    n: int,
    m: int,
)
    requires
        0 <= n <= m,
        !restored_pages(domains, mappings, n).0,
    ensures
        restored_pages(domains, mappings, m) == restored_pages(domains, mappings, n),
    decreases m - n,
{
    if n < m {
        lemma_unknown_target_is_final(domains, mappings, n, m - 1);
    }
}

/// Where every target is known, every mapping that ends brings the page of its
/// target back.
pub proof fn law_every_ended_mapping_is_restored(
    domains: Seq<RuntimeDomain>,
    mappings: Seq<GrantMapping>,
    n: int,
    i: int,
)
    requires
        0 <= i < n <= mappings.len(),
        restored_pages(domains, mappings, n).0,
    ensures
        restored_pages(domains, mappings, n).1.len() == n,
        restored_pages(domains, mappings, n).1[i] == (RestoredPage {
            target: index_of_domain(domains, mappings[i].target.value, 0) as usize,
            page: mappings[i].target_page,
        }),
    decreases n,
{
    reveal_with_fuel(restored_pages, 2);
    if i < n - 1 {
        law_every_ended_mapping_is_restored(domains, mappings, n - 1, i);
    } else if n > 1 {
        law_every_ended_mapping_is_restored(domains, mappings, n - 1, 0);
    }
}

/// The tables of every Domain are in the memory.
pub open spec fn all_mapped(domains: Seq<RuntimeDomain>, m: Map<int, u64>) -> bool {
    forall|i: int|
        0 <= i < domains.len() ==> {
            &&& (#[trigger] domains[i]).domain.nested_pages.wf()
            &&& domains[i].domain.nested_pages@.is_mapped(m)
        }
}

/// Where a Domain's tables say what lies behind a page of its RAM.
pub open spec fn page_slot(domains: Seq<RuntimeDomain>, page: RestoredPage) -> int {
    ram_slot(domains[page.target as int].domain.nested_pages@, page.page)
}

/// What they say where the page is the Domain's own.
pub open spec fn own_entry(domains: Seq<RuntimeDomain>, page: RestoredPage) -> u64 {
    let table = domains[page.target as int].domain.nested_pages;
    entry(table@.guest_base + page.page, ram_flags(table.spec_backend()))
}

/// The first `n` pages restored in order, up to the first that is no RAM.
pub open spec fn pages_restored(
    domains: Seq<RuntimeDomain>,
    pages: Seq<RestoredPage>,
    m: Map<int, u64>,
    n: int,
) -> (Result<(), Error>, Map<int, u64>)
    decreases n,
{
    if n <= 0 {
        (Ok(()), m)
    } else {
        let (r, t) = pages_restored(domains, pages, m, n - 1);
        let page = pages[n - 1];
        if r is Err {
            (r, t)
        } else if is_ram_page(domains[page.target as int].domain.nested_pages@, page.page) {
            (Ok(()), t.insert(page_slot(domains, page), own_entry(domains, page)))
        } else {
            (Err(Error::InvalidPage), t)
        }
    }
}

/// Puts the Domains' own pages back where grants were mapped. The translations of the
/// Domains have to be flushed before they run again.
pub fn restore_pages(
    domains: &Vec<RuntimeDomain>,
    pages: &Vec<RestoredPage>,
    memory: &mut PhysicalMemory,
) -> (r: Result<(), Error>)
    requires
        targets_known(domains@, pages@),
        old(memory).wf(),
        all_mapped(domains@, old(memory)@),
    ensures
        final(memory).wf(),
        all_mapped(domains@, final(memory)@),
        (r, final(memory)@) == pages_restored(
            domains@,
            pages@,
            old(memory)@,
            pages@.len() as int,
        ),
{
    let ghost before = memory@;
    let mut n: usize = 0;
    while n < pages.len()
        invariant
            n <= pages.len(),
            targets_known(domains@, pages@),
            before == old(memory)@,
            memory.wf(),
            memory@.dom() == before.dom(),
            all_mapped(domains@, memory@),
            pages_restored(domains@, pages@, before, n as int) == (
                Ok::<(), Error>(()),
                memory@,
            ),
        decreases pages.len() - n,
    {
        let page = pages[n];
        let table = domains[page.target].domain.nested_pages;
        let ghost now = memory@;
        assert(domains@[page.target as int].domain.nested_pages.wf());
        match table.restore_owned_page(page.page, memory) {
            Ok(()) => {
                proof {
                    lemma_ram_slot_mapped(table@, now, page.page);
                    assert(memory@.dom() =~= now.dom());
                    lemma_all_mapped(domains@, now, memory@);
                }
            },
            Err(error) => {
                proof {
                    lemma_failed_restore_is_final(
                        domains@,
                        pages@,
                        before,
                        n + 1,
                        pages@.len() as int,
                    );
                }
                return Err(error);
            },
        }
        n += 1;
    }
    Ok(())
}

proof fn lemma_all_mapped(domains: Seq<RuntimeDomain>, m: Map<int, u64>, n: Map<int, u64>)
    requires
        all_mapped(domains, m),
        n.dom() == m.dom(),
    ensures
        all_mapped(domains, n),
{
    assert forall|i: int| 0 <= i < domains.len() implies {
        &&& (#[trigger] domains[i]).domain.nested_pages.wf()
        &&& domains[i].domain.nested_pages@.is_mapped(n)
    } by {
        assert(domains[i].domain.nested_pages@.is_mapped(m));
    }
}

proof fn lemma_failed_restore_is_final(
    domains: Seq<RuntimeDomain>,
    pages: Seq<RestoredPage>,
    m: Map<int, u64>,
    n: int,
    to: int,
)
    requires
        0 <= n <= to,
        pages_restored(domains, pages, m, n).0 is Err,
    ensures
        pages_restored(domains, pages, m, to) == pages_restored(domains, pages, m, n),
    decreases to - n,
{
    if n < to {
        lemma_failed_restore_is_final(domains, pages, m, n, to - 1);
    }
}

/// Once the pages are restored, each of them is its Domain's own again, and no other
/// word has changed. The tables of different Domains lie apart.
pub proof fn law_restored_pages_are_owned(
    domains: Seq<RuntimeDomain>,
    pages: Seq<RestoredPage>,
    m: Map<int, u64>,
    n: int,
)
    requires
        0 <= n <= pages.len(),
        targets_known(domains, pages),
        all_mapped(domains, m),
        forall|i: int, j: int|
            0 <= i < domains.len() && 0 <= j < domains.len() && i != j ==> are_apart(
                (#[trigger] domains[i]).domain.nested_pages@,
                (#[trigger] domains[j]).domain.nested_pages@,
            ),
        pages_restored(domains, pages, m, n).0 is Ok,
    ensures
        ({
            let after = pages_restored(domains, pages, m, n).1;
            &&& forall|i: int|
                0 <= i < n ==> after[page_slot(domains, #[trigger] pages[i])] == own_entry(
                    domains,
                    pages[i],
                )
            &&& forall|a: int|
                (forall|i: int| 0 <= i < n ==> page_slot(domains, #[trigger] pages[i]) != a)
                    ==> #[trigger] after[a] == m[a]
        }),
    decreases n,
{
    if n > 0 {
        law_restored_pages_are_owned(domains, pages, m, n - 1);
        let before = pages_restored(domains, pages, m, n - 1).1;
        let after = pages_restored(domains, pages, m, n).1;
        let last = pages[n - 1];
        assert forall|i: int| 0 <= i < n implies after[page_slot(domains, #[trigger] pages[i])]
            == own_entry(domains, pages[i]) by {
            lemma_restored_page_is_ram(domains, pages, m, n, i);
            lemma_restored_page_is_ram(domains, pages, m, n, n - 1);
            let r = domains[pages[i].target as int].domain.nested_pages@;
            let s = domains[last.target as int].domain.nested_pages@;
            lemma_ram_slot_mapped(r, m, pages[i].page);
            lemma_ram_slot_mapped(s, m, last.page);
            if page_slot(domains, pages[i]) == page_slot(domains, last) {
                assert(r.holds(page_slot(domains, last)));
                assert(s.holds(page_slot(domains, last)));
                assert(pages[i].target == last.target);
                assert(pages[i].page == last.page);
            }
        }
        assert forall|a: int|
            (forall|i: int| 0 <= i < n ==> page_slot(domains, #[trigger] pages[i]) != a) implies
            #[trigger] after[a] == m[a] by {
            assert(page_slot(domains, pages[n - 1]) != a);
            assert(before[a] == m[a]);
        }
    }
}

proof fn lemma_restored_page_is_ram(
    domains: Seq<RuntimeDomain>,
    pages: Seq<RestoredPage>,
    m: Map<int, u64>,
    n: int,
    i: int,
)
    requires
        0 <= i < n,
        pages_restored(domains, pages, m, n).0 is Ok,
    ensures
        is_ram_page(domains[pages[i].target as int].domain.nested_pages@, pages[i].page),
    decreases n,
{
    if i < n - 1 {
        lemma_restored_page_is_ram(domains, pages, m, n - 1, i);
    }
}

/// How the machine ended up once no Domain can run.
#[derive(Clone, Copy, Debug, PartialEq, Eq, Structural)]
pub enum Outcome {
    /// Every Domain has ended by itself.
    Complete { stopped: usize },
    /// Every Domain has ended by itself, some after crashes.
    Recovered { stopped: usize, recovered: usize },
    /// Some Domains stay crashed; the first of them has left this record.
    Isolated { stopped: usize, crashed: usize, first: Option<DomainCrashInfo> },
    /// Some Domains wait.
    Waiting { waiting: usize, crashed: usize },
}

/// What there is of each kind among the first `n` Domains.
#[derive(Clone, Copy, Debug, PartialEq, Eq, Structural)]
pub struct Census {
    pub waiting: usize,
    pub crashed: usize,
    pub recovered: usize,
    pub stopped: usize,
    /// The record of the first Domain that stays crashed and has one.
    pub first: Option<DomainCrashInfo>,
}

pub open spec fn is_recovered(runtime: RuntimeDomain) -> bool {
    match runtime.crash_info {
        None => false,
        Some(info) => info.status == DOMAIN_CRASH_STATUS_RESTARTED && runtime.domain.state
            != DomainState::Crashed,
    }
}

pub open spec fn more(n: usize, condition: bool) -> usize {
    if condition {
        (n + 1) as usize
    } else {
        n
    }
}

pub open spec fn census(domains: Seq<RuntimeDomain>, n: int) -> Census
    decreases n,
{
    if n <= 0 {
        Census { waiting: 0, crashed: 0, recovered: 0, stopped: 0, first: None }
    } else {
        let c = census(domains, n - 1);
        let d = domains[n - 1];
        Census {
            waiting: more(c.waiting, d.waiting),
            crashed: more(c.crashed, d.domain.state == DomainState::Crashed),
            recovered: more(c.recovered, is_recovered(d)),
            stopped: more(c.stopped, d.domain.state == DomainState::Stopped),
            first: if c.first is None && d.domain.state == DomainState::Crashed {
                d.crash_info
            } else {
                c.first
            },
        }
    }
}

pub open spec fn outcome_of(c: Census) -> Outcome {
    if c.waiting != 0 {
        Outcome::Waiting { waiting: c.waiting, crashed: c.crashed }
    } else if c.crashed != 0 {
        Outcome::Isolated { stopped: c.stopped, crashed: c.crashed, first: c.first }
    } else if c.recovered != 0 {
        Outcome::Recovered { stopped: c.stopped, recovered: c.recovered }
    } else {
        Outcome::Complete { stopped: c.stopped }
    }
}

/// Sums up how the machine ended up.
pub fn final_outcome(domains: &Vec<RuntimeDomain>) -> (r: Outcome)
    ensures
        r == outcome_of(census(domains@, domains@.len() as int)),
{
    let mut c = Census { waiting: 0, crashed: 0, recovered: 0, stopped: 0, first: None };
    let mut n: usize = 0;
    while n < domains.len()
        invariant
            n <= domains.len(),
            c == census(domains@, n as int),
            c.waiting <= n,
            c.crashed <= n,
            c.recovered <= n,
            c.stopped <= n,
        decreases domains.len() - n,
    {
        let d = domains[n];
        if d.waiting {
            c.waiting += 1;
        }
        if d.domain.state == DomainState::Crashed {
            c.crashed += 1;
            if c.first.is_none() {
                c.first = d.crash_info;
            }
        }
        if let Some(info) = d.crash_info {
            if info.status == DOMAIN_CRASH_STATUS_RESTARTED && d.domain.state
                != DomainState::Crashed {
                c.recovered += 1;
            }
        }
        if d.domain.state == DomainState::Stopped {
            c.stopped += 1;
        }
        n += 1;
    }
    if c.waiting == 0 && c.crashed == 0 && c.recovered == 0 {
        Outcome::Complete { stopped: c.stopped }
    } else if c.waiting == 0 && c.crashed == 0 {
        Outcome::Recovered { stopped: c.stopped, recovered: c.recovered }
    } else if c.waiting == 0 {
        Outcome::Isolated { stopped: c.stopped, crashed: c.crashed, first: c.first }
    } else {
        Outcome::Waiting { waiting: c.waiting, crashed: c.crashed }
    }
}

/// A restarted Domain is connected only with Domains that run: every channel that
/// the restart adds ends in the Domain and in one that runs.
pub proof fn law_reconnection_reaches_running_domains_only(
    channels: Seq<ManifestEventChannel>,
    domains: Seq<RuntimeDomain>,
    id: u32,
    s: Seq<EventChannel>,
    n: int,
    i: int,
)
    requires
        s.len() <= i < reconnected(channels, domains, id, s, n).1.len(),
        n <= channels.len(),
    ensures
        ({
            let c = reconnected(channels, domains, id, s, n).1[i];
            ||| c.a.domain.value == id && is_running(domains, c.b.domain.value)
            ||| c.b.domain.value == id && is_running(domains, c.a.domain.value)
        }),
    decreases n,
{
    if n > 0 {
        let t = reconnected(channels, domains, id, s, n - 1).1;
        if i < t.len() {
            law_reconnection_reaches_running_domains_only(channels, domains, id, s, n - 1, i);
        }
    }
}

/// What each exit asks for, and how the virtual CPU goes on behind it: an interrupt of the
/// host (valid by bit 31 of its information, its vector in the low eight bits) is
/// acknowledged and the instruction repeated; a halt sleeps; a register is read or written
/// by number and value as the exit says; a nested page fault ends the Domain with its
/// address and cause.
pub proof fn law_exits_ask_for_what_they_carry(exit: VmExit, before: ResumeKind)
    ensures
        match exit.reason {
            VmExitReason::Preempted => resume_after(exit, before) == ResumeKind::WithoutAdvance
                && exit_action(exit) == (ExitAction::Continue {
                acknowledge: if exit.fault_info & 0x8000_0000 != 0 {
                    Some((exit.fault_info & 0xff) as u8)
                } else {
                    None
                },
            }),
            VmExitReason::InterruptWindow => resume_after(exit, before)
                == ResumeKind::WithoutAdvance && exit_action(exit) == (ExitAction::Continue {
                acknowledge: None,
            }),
            VmExitReason::Halt => resume_after(exit, before) == ResumeKind::Halted && exit_action(
                exit,
            ) == (ExitAction::Continue { acknowledge: None }),
            VmExitReason::ControlRegisterWrite => resume_after(exit, before) == (
            ResumeKind::ControlRegisterWrite {
                register: (exit.fault_info & 0xf) as u8,
                value: exit.fault_address,
            }) && exit_action(exit) == (ExitAction::Continue { acknowledge: None }),
            VmExitReason::MsrRead => resume_after(exit, before) == before && exit_action(exit) == (
            ExitAction::ReadMsr { msr: exit.msr }),
            VmExitReason::MsrWrite => resume_after(exit, before) == before && exit_action(exit) == (
            ExitAction::WriteMsr { msr: exit.msr, word: exit.msr_value }),
            VmExitReason::Cpuid => resume_after(exit, before) == before && exit_action(exit) == (
            ExitAction::Identify { leaf: exit.cpuid_leaf, subleaf: exit.cpuid_subleaf }),
            VmExitReason::NestedPageFault => resume_after(exit, before) == before && exit_action(
                exit,
            ) == (ExitAction::Crash {
                raw_reason: exit.raw_reason,
                address: exit.fault_address,
                info: exit.fault_info,
            }),
            VmExitReason::Hypercall => resume_after(exit, before) == ResumeKind::Hypercall
                && exit_action(exit) == ExitAction::Hypercall,
        },
{
}

/// A Domain that is restarted starts at its freshly loaded kernel as if for the first time,
/// one restart on: it has not been entered, waits for nothing, has reported nothing and
/// takes no events, and its stack starts sixteen bytes below the windows at the top of its
/// RAM. What it is and may do is as before.
pub proof fn law_restarted_domain_starts_afresh(runtime: RuntimeDomain, kernel: LoadedKernel)
    requires
        runtime.wf(),
    ensures
        ({
            let after = restarted(runtime, kernel);
            &&& after.domain.state == DomainState::Running
            &&& !after.started && !after.ready && !after.waiting && !after.event_irq_enabled
            &&& after.pending_result == 0 && after.yield_count == 0 && after.preemption_count == 0
            &&& after.resume_kind == ResumeKind::Hypercall
            &&& after.guest.entry == kernel.entry
            &&& after.guest.page_table_root == kernel.page_table_root
            &&& after.guest.stack == 0x1000 * runtime.domain.nested_pages@.guest_pages - 0x5_0010
            &&& after.guest.boot_info == (match runtime.image_format {
                ManifestImageFormat::NativeElf => 0x3000,
                ManifestImageFormat::LinuxPvh => kernel.loader_info,
            })
            &&& after.guest.boot_mode == runtime.guest.boot_mode
            &&& after.guest.nested_root == runtime.guest.nested_root
            &&& after.guest.msr_permission_map == runtime.guest.msr_permission_map
            &&& after.guest.msr_state_page == runtime.guest.msr_state_page
            &&& after.domain.id == runtime.domain.id && after.domain.role == runtime.domain.role
                && after.domain.capabilities == runtime.domain.capabilities
                && after.domain.nested_pages == runtime.domain.nested_pages
            &&& after.image_format == runtime.image_format && after.restart_policy
                == runtime.restart_policy && after.max_restarts == runtime.max_restarts
            &&& after.restart_count == (if runtime.restart_count < u32::MAX {
                runtime.restart_count + 1
            } else {
                u32::MAX as int
            })
            &&& after.crash_info is Some <==> runtime.crash_info is Some
            &&& after.crash_info matches Some(info) ==> info.status == 2 && info.restart_count
                == after.restart_count && info.raw_reason == runtime.crash_info->0.raw_reason
                && info.fault_address == runtime.crash_info->0.fault_address && info.fault_info
                == runtime.crash_info->0.fault_info
        }),
        boot_mode_of(ManifestImageFormat::NativeElf) == GuestBootMode::Long64,
        boot_mode_of(ManifestImageFormat::LinuxPvh) == GuestBootMode::LinuxPvh32,
{
}

/// A crash is recorded with what caused it, under the Domain's number, as a crash (1) with
/// one restart more than there were; the Domain is crashed and waits for nothing.
pub proof fn law_crash_record_says_what_happened(
    runtime: RuntimeDomain,
    raw_reason: u64,
    address: u64,
    info: u64,
)
    requires
        runtime.restart_count < u32::MAX,
    ensures
        ({
            let after = crashed(runtime, raw_reason, address, info);
            &&& after.domain.state == DomainState::Crashed
            &&& !after.waiting
            &&& after.restart_count == runtime.restart_count
            &&& after.crash_info matches Some(record) && record.domain_id == runtime.domain.id.value
                && record.status == 1 && record.restart_count == runtime.restart_count + 1
                && record.raw_reason == raw_reason && record.fault_address == address
                && record.fault_info == info
        }),
{
}

/// The frequency that a guest is told is the TSC's in whole kHz, where that is known and
/// fits in 32 bits, and a gigahertz else.
pub proof fn law_guest_frequency_is_rounded_down(hz: u64)
    ensures
        hz < 0x3e8_0000_0000 ==> 1000 * kilohertz(Some(hz)) <= hz < 1000 * kilohertz(Some(hz)) + 1000,
        hz >= 0x3e8_0000_0000 ==> kilohertz(Some(hz)) == 1_000_000,
        kilohertz(None) == 1_000_000,
{
}

/// The management interrupt goes to the first System Domain that runs, and to nobody
/// exactly where none does.
pub proof fn law_running_system_domain_is_notified(domains: Seq<RuntimeDomain>, from: int)
    requires
        0 <= from <= domains.len(),
    ensures
        from <= system_domain(domains, from) <= domains.len(),
        system_domain(domains, from) < domains.len() ==> domains[system_domain(
            domains,
            from,
        )].domain.role == DomainRole::System && domains[system_domain(domains, from)].domain.state
            == DomainState::Running,
        forall|i: int|
            from <= i < system_domain(domains, from) ==> !((#[trigger] domains[i]).domain.role
                == DomainRole::System && domains[i].domain.state == DomainState::Running),
    decreases domains.len() - from,
{
    if from < domains.len() && !(domains[from].domain.role == DomainRole::System
        && domains[from].domain.state == DomainState::Running) {
        law_running_system_domain_is_notified(domains, from + 1);
    }
}

/// The final count of each kind is the number of Domains of that kind: those that wait,
/// that stay crashed, that were restarted after a crash and did not stay crashed, and that
/// stopped.
pub proof fn law_census_counts_each_kind(domains: Seq<RuntimeDomain>, n: int)
    requires
        0 <= n <= domains.len() <= usize::MAX,
    ensures
        census(domains, n).waiting == domains.take(n).filter(|d: RuntimeDomain| d.waiting).len(),
        census(domains, n).crashed == domains.take(n).filter(
            |d: RuntimeDomain| d.domain.state == DomainState::Crashed,
        ).len(),
        census(domains, n).stopped == domains.take(n).filter(
            |d: RuntimeDomain| d.domain.state == DomainState::Stopped,
        ).len(),
        census(domains, n).recovered == domains.take(n).filter(
            |d: RuntimeDomain|
                d.domain.state != DomainState::Crashed && d.crash_info is Some
                    && d.crash_info->0.status == 2,
        ).len(),
    decreases n,
{
    let waiting = |d: RuntimeDomain| d.waiting;
    let crashed_state = |d: RuntimeDomain| d.domain.state == DomainState::Crashed;
    let stopped = |d: RuntimeDomain| d.domain.state == DomainState::Stopped;
    let recovered = |d: RuntimeDomain|
        d.domain.state != DomainState::Crashed && d.crash_info is Some && d.crash_info->0.status
            == 2;
    let s = domains.take(n);
    reveal(Seq::filter);
    if n > 0 {
        law_census_counts_each_kind(domains, n - 1);
        assert(s.drop_last() =~= domains.take(n - 1));
        assert(s.last() == domains[n - 1]);
        s.drop_last().lemma_filter_len(waiting);
        s.drop_last().lemma_filter_len(crashed_state);
        s.drop_last().lemma_filter_len(stopped);
        s.drop_last().lemma_filter_len(recovered);
    }
}

/// The machine is reported as waiting where any Domain waits, else as isolated where any
/// stays crashed, else as recovered where any was restarted, else as complete.
pub proof fn law_outcome_reports_the_worst(c: Census)
    ensures
        c.waiting > 0 ==> outcome_of(c) == (Outcome::Waiting {
            waiting: c.waiting,
            crashed: c.crashed,
        }),
        c.waiting == 0 && c.crashed > 0 ==> outcome_of(c) == (Outcome::Isolated {
            stopped: c.stopped,
            crashed: c.crashed,
            first: c.first,
        }),
        c.waiting == 0 && c.crashed == 0 && c.recovered > 0 ==> outcome_of(c) == (
        Outcome::Recovered { stopped: c.stopped, recovered: c.recovered }),
        c.waiting == 0 && c.crashed == 0 && c.recovered == 0 ==> outcome_of(c) == (
        Outcome::Complete { stopped: c.stopped }),
{
}

/// The record that is shown is that of the first crashed Domain that has one.
pub proof fn law_first_crash_record_is_shown(domains: Seq<RuntimeDomain>, n: int)
    requires
        0 <= n <= domains.len(),
    ensures
        census(domains, n).first matches Some(record) ==> exists|i: int|
            0 <= i < n && (#[trigger] domains[i]).domain.state == DomainState::Crashed
                && domains[i].crash_info == Some(record) && forall|j: int|
                0 <= j < i ==> !((#[trigger] domains[j]).domain.state == DomainState::Crashed
                    && domains[j].crash_info is Some),
        census(domains, n).first is None ==> forall|j: int|
            0 <= j < n ==> !((#[trigger] domains[j]).domain.state == DomainState::Crashed
                && domains[j].crash_info is Some),
    decreases n,
{
    if n > 0 {
        law_first_crash_record_is_shown(domains, n - 1);
        if census(domains, n).first is Some {
            if census(domains, n - 1).first is Some {
                let record = census(domains, n - 1).first->0;
                let i = choose|i: int|
                    0 <= i < n - 1 && (#[trigger] domains[i]).domain.state == DomainState::Crashed
                        && domains[i].crash_info == Some(record) && forall|j: int|
                        0 <= j < i ==> !((#[trigger] domains[j]).domain.state == DomainState::Crashed
                            && domains[j].crash_info is Some);
                assert(domains[i].domain.state == DomainState::Crashed);
            } else {
                assert(domains[n - 1].domain.state == DomainState::Crashed);
            }
        }
    }
}

} // verus!
