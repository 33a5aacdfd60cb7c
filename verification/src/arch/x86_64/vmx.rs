//! Intel VMX: what to write into a VMCS, and what an exit means.

use vstd::prelude::*;

pub mod fields;

use crate::{BackendKind, CpuidResult, Error, GuestBootMode, GuestConfig, VmExit, VmExitReason};

verus! {

pub const IA32_FEATURE_CONTROL: u32 = 0x3a;

pub const IA32_VMX_BASIC: u32 = 0x480;

pub const IA32_VMX_PROCBASED_CTLS: u32 = 0x482;

pub const IA32_VMX_EXIT_CTLS: u32 = 0x483;

pub const IA32_VMX_ENTRY_CTLS: u32 = 0x484;

pub const IA32_VMX_CR0_FIXED0: u32 = 0x486;

pub const IA32_VMX_CR0_FIXED1: u32 = 0x487;

pub const IA32_VMX_CR4_FIXED0: u32 = 0x488;

pub const IA32_VMX_CR4_FIXED1: u32 = 0x489;

pub const IA32_VMX_PROCBASED_CTLS2: u32 = 0x48b;

pub const IA32_VMX_EPT_VPID_CAP: u32 = 0x48c;

pub const IA32_VMX_TRUE_PINBASED_CTLS: u32 = 0x48d;

pub const IA32_VMX_TRUE_PROCBASED_CTLS: u32 = 0x48e;

pub const IA32_VMX_TRUE_EXIT_CTLS: u32 = 0x48f;

pub const IA32_VMX_TRUE_ENTRY_CTLS: u32 = 0x490;

pub const IA32_FS_BASE: u32 = 0xc000_0100;

pub const IA32_GS_BASE: u32 = 0xc000_0101;

pub const IA32_SYSENTER_CS: u32 = 0x174;

pub const IA32_SYSENTER_ESP: u32 = 0x175;

pub const IA32_SYSENTER_EIP: u32 = 0x176;

pub const IA32_EFER: u32 = 0xc000_0080;

pub const FEATURE_CONTROL_LOCK: u64 = 0x1;

pub const FEATURE_CONTROL_VMX_OUTSIDE_SMX: u64 = 0x4;

pub const CR4_VMXE: u64 = 0x2000;

pub const CR0_PAGING: u64 = 0x80000000;

pub const EFER_SCE: u64 = 0x1;

pub const EFER_LME: u64 = 0x100;

pub const EFER_LMA: u64 = 0x400;

pub const EFER_NXE: u64 = 0x800;

pub const PIN_BASED_CONTROLS: u64 = 0x4000;

pub const PRIMARY_CONTROLS: u64 = 0x4002;

pub const EXCEPTION_BITMAP: u64 = 0x4004;

pub const PAGE_FAULT_ERROR_MASK: u64 = 0x4006;

pub const PAGE_FAULT_ERROR_MATCH: u64 = 0x4008;

pub const CR3_TARGET_COUNT: u64 = 0x400a;

pub const EXIT_CONTROLS: u64 = 0x400c;

pub const EXIT_MSR_STORE_COUNT: u64 = 0x400e;

pub const EXIT_MSR_LOAD_COUNT: u64 = 0x4010;

pub const ENTRY_CONTROLS: u64 = 0x4012;

pub const ENTRY_MSR_LOAD_COUNT: u64 = 0x4014;

pub const ENTRY_INTERRUPTION_INFO: u64 = 0x4016;

pub const ENTRY_EXCEPTION_ERROR_CODE: u64 = 0x4018;

pub const SECONDARY_CONTROLS: u64 = 0x401e;

pub const CR0_GUEST_HOST_MASK: u64 = 0x6000;

pub const CR4_GUEST_HOST_MASK: u64 = 0x6002;

pub const CR0_READ_SHADOW: u64 = 0x6004;

pub const CR4_READ_SHADOW: u64 = 0x6006;

pub const MSR_BITMAP: u64 = 0x2004;

pub const EXIT_MSR_STORE_ADDRESS: u64 = 0x2006;

pub const EXIT_MSR_LOAD_ADDRESS: u64 = 0x2008;

pub const ENTRY_MSR_LOAD_ADDRESS: u64 = 0x200a;

pub const EPT_POINTER: u64 = 0x201a;

pub const GUEST_PHYSICAL_ADDRESS: u64 = 0x2400;

pub const VMCS_LINK_POINTER: u64 = 0x2800;

pub const GUEST_DEBUGCTL: u64 = 0x2802;

pub const GUEST_PAT: u64 = 0x2804;

pub const GUEST_EFER: u64 = 0x2806;

pub const HOST_PAT: u64 = 0x2c00;

pub const HOST_EFER: u64 = 0x2c02;

pub const GUEST_ES_SELECTOR: u64 = 0x0800;

pub const GUEST_CS_SELECTOR: u64 = 0x0802;

pub const GUEST_SS_SELECTOR: u64 = 0x0804;

pub const GUEST_DS_SELECTOR: u64 = 0x0806;

pub const GUEST_FS_SELECTOR: u64 = 0x0808;

pub const GUEST_GS_SELECTOR: u64 = 0x080a;

pub const GUEST_LDTR_SELECTOR: u64 = 0x080c;

pub const GUEST_TR_SELECTOR: u64 = 0x080e;

pub const HOST_ES_SELECTOR: u64 = 0x0c00;

pub const HOST_CS_SELECTOR: u64 = 0x0c02;

pub const HOST_SS_SELECTOR: u64 = 0x0c04;

pub const HOST_DS_SELECTOR: u64 = 0x0c06;

pub const HOST_FS_SELECTOR: u64 = 0x0c08;

pub const HOST_GS_SELECTOR: u64 = 0x0c0a;

pub const HOST_TR_SELECTOR: u64 = 0x0c0c;

pub const GUEST_ES_LIMIT: u64 = 0x4800;

pub const GUEST_CS_LIMIT: u64 = 0x4802;

pub const GUEST_SS_LIMIT: u64 = 0x4804;

pub const GUEST_DS_LIMIT: u64 = 0x4806;

pub const GUEST_FS_LIMIT: u64 = 0x4808;

pub const GUEST_GS_LIMIT: u64 = 0x480a;

pub const GUEST_LDTR_LIMIT: u64 = 0x480c;

pub const GUEST_TR_LIMIT: u64 = 0x480e;

pub const GUEST_GDTR_LIMIT: u64 = 0x4810;

pub const GUEST_IDTR_LIMIT: u64 = 0x4812;

pub const GUEST_ES_AR: u64 = 0x4814;

pub const GUEST_CS_AR: u64 = 0x4816;

pub const GUEST_SS_AR: u64 = 0x4818;

pub const GUEST_DS_AR: u64 = 0x481a;

pub const GUEST_FS_AR: u64 = 0x481c;

pub const GUEST_GS_AR: u64 = 0x481e;

pub const GUEST_LDTR_AR: u64 = 0x4820;

pub const GUEST_TR_AR: u64 = 0x4822;

pub const GUEST_INTERRUPTIBILITY: u64 = 0x4824;

pub const GUEST_ACTIVITY_STATE: u64 = 0x4826;

pub const GUEST_SYSENTER_CS: u64 = 0x482a;

pub const HOST_SYSENTER_CS: u64 = 0x4c00;

pub const GUEST_CR0: u64 = 0x6800;

pub const GUEST_CR3: u64 = 0x6802;

pub const GUEST_CR4: u64 = 0x6804;

pub const GUEST_ES_BASE: u64 = 0x6806;

pub const GUEST_CS_BASE: u64 = 0x6808;

pub const GUEST_SS_BASE: u64 = 0x680a;

pub const GUEST_DS_BASE: u64 = 0x680c;

pub const GUEST_FS_BASE: u64 = 0x680e;

pub const GUEST_GS_BASE: u64 = 0x6810;

pub const GUEST_LDTR_BASE: u64 = 0x6812;

pub const GUEST_TR_BASE: u64 = 0x6814;

pub const GUEST_GDTR_BASE: u64 = 0x6816;

pub const GUEST_IDTR_BASE: u64 = 0x6818;

pub const GUEST_DR7: u64 = 0x681a;

pub const GUEST_RSP: u64 = 0x681c;

pub const GUEST_RIP: u64 = 0x681e;

pub const GUEST_RFLAGS: u64 = 0x6820;

pub const GUEST_SYSENTER_ESP: u64 = 0x6824;

pub const GUEST_SYSENTER_EIP: u64 = 0x6826;

pub const HOST_CR0: u64 = 0x6c00;

pub const HOST_CR3: u64 = 0x6c02;

pub const HOST_CR4: u64 = 0x6c04;

pub const HOST_FS_BASE: u64 = 0x6c06;

pub const HOST_GS_BASE: u64 = 0x6c08;

pub const HOST_TR_BASE: u64 = 0x6c0a;

pub const HOST_GDTR_BASE: u64 = 0x6c0c;

pub const HOST_IDTR_BASE: u64 = 0x6c0e;

pub const HOST_SYSENTER_ESP: u64 = 0x6c10;

pub const HOST_SYSENTER_EIP: u64 = 0x6c12;

pub const EXIT_REASON: u64 = 0x4402;

pub const EXIT_QUALIFICATION: u64 = 0x6400;

pub const VM_INSTRUCTION_ERROR: u64 = 0x4400;

pub const EXIT_INSTRUCTION_LENGTH: u64 = 0x440c;

pub const EXIT_INTERRUPTION_INFO: u64 = 0x4404;

pub const EXTERNAL_INTERRUPT_EXIT_REASON: u64 = 1;

pub const INTERRUPT_WINDOW_EXIT_REASON: u64 = 7;

pub const CPUID_EXIT_REASON: u64 = 10;

pub const HLT_EXIT_REASON: u64 = 12;

pub const VMCALL_EXIT_REASON: u64 = 18;

pub const RDMSR_EXIT_REASON: u64 = 31;

pub const WRMSR_EXIT_REASON: u64 = 32;

pub const EPT_VIOLATION_EXIT_REASON: u64 = 48;

pub const IA32_PAT: u32 = 0x277;

pub const IA32_VMX_PINBASED_CTLS: u32 = 0x481;

/// Asks the processor for an exit as soon as the guest can take an interrupt.
pub const INTERRUPT_WINDOW_EXITING: u64 = 0x4;

/// Enters the guest in IA-32e mode.
pub const ENTRY_IA32E_MODE: u64 = 0x200;

/// How many MSRs are switched with the guest.
pub const GUEST_MSR_COUNT: u64 = 6;

/// What the guest's registers hold while it is stopped.
#[derive(Clone, Copy, Debug, PartialEq, Eq, Structural)]
pub struct VmxRunContext {
    pub rax: u64,
    pub rdi: u64,
    pub rsi: u64,
    pub rdx: u64,
    pub rbx: u64,
    pub rbp: u64,
    pub r12: u64,
    pub r13: u64,
    pub r14: u64,
    pub r15: u64,
    pub resume: u64,
    pub rcx: u64,
    pub r8: u64,
    pub r9: u64,
    pub r10: u64,
    pub r11: u64,
}

pub open spec fn empty_context() -> VmxRunContext {
    VmxRunContext {
        rax: 0,
        rdi: 0,
        rsi: 0,
        rdx: 0,
        rbx: 0,
        rbp: 0,
        r12: 0,
        r13: 0,
        r14: 0,
        r15: 0,
        resume: 0,
        rcx: 0,
        r8: 0,
        r9: 0,
        r10: 0,
        r11: 0,
    }
}

impl Default for VmxRunContext {
    fn default() -> (r: Self)
        ensures
            r == empty_context(),
    {
        VmxRunContext {
            rax: 0,
            rdi: 0,
            rsi: 0,
            rdx: 0,
            rbx: 0,
            rbp: 0,
            r12: 0,
            r13: 0,
            r14: 0,
            r15: 0,
            resume: 0,
            rcx: 0,
            r8: 0,
            r9: 0,
            r10: 0,
            r11: 0,
        }
    }
}

impl VmxRunContext {
    /// The registers in the order in which the entry code finds them in memory.
    pub open spec fn layout(self) -> Seq<u64> {
        seq![
            self.rax,
            self.rdi,
            self.rsi,
            self.rdx,
            self.rbx,
            self.rbp,
            self.r12,
            self.r13,
            self.r14,
            self.r15,
            self.resume,
            self.rcx,
            self.r8,
            self.r9,
            self.r10,
            self.r11,
        ]
    }

    /// The registers as the entry code loads them.
    pub fn to_words(&self) -> (r: [u64; 16])
        ensures
            r@ == self.layout(),
    {
        let words: [u64; 16] = [
            self.rax,
            self.rdi,
            self.rsi,
            self.rdx,
            self.rbx,
            self.rbp,
            self.r12,
            self.r13,
            self.r14,
            self.r15,
            self.resume,
            self.rcx,
            self.r8,
            self.r9,
            self.r10,
            self.r11,
        ];
        assert(words@ =~= self.layout());
        words
    }

    /// The registers as the entry code has saved them.
    pub fn from_words(words: &[u64; 16]) -> (r: Self)
        ensures
            r.layout() == words@,
    {
        let context = VmxRunContext {
            rax: words[0],
            rdi: words[1],
            rsi: words[2],
            rdx: words[3],
            rbx: words[4],
            rbp: words[5],
            r12: words[6],
            r13: words[7],
            r14: words[8],
            r15: words[9],
            resume: words[10],
            rcx: words[11],
            r8: words[12],
            r9: words[13],
            r10: words[14],
            r11: words[15],
        };
        assert(context.layout() =~= words@);
        context
    }
}

/// No register is lost between the library and the entry code: two contexts that are
/// the same words are the same.
pub proof fn law_context_is_its_words(a: VmxRunContext, b: VmxRunContext)
    requires
        a.layout() == b.layout(),
    ensures
        a == b,
{
    let (x, y) = (a.layout(), b.layout());
    assert(forall|i: int| 0 <= i < 16 ==> x[i] == y[i]);
    assert(x[0] == a.rax && y[0] == b.rax);
    assert(x[1] == a.rdi && y[1] == b.rdi);
    assert(x[2] == a.rsi && y[2] == b.rsi);
    assert(x[3] == a.rdx && y[3] == b.rdx);
    assert(x[4] == a.rbx && y[4] == b.rbx);
    assert(x[5] == a.rbp && y[5] == b.rbp);
    assert(x[6] == a.r12 && y[6] == b.r12);
    assert(x[7] == a.r13 && y[7] == b.r13);
    assert(x[8] == a.r14 && y[8] == b.r14);
    assert(x[9] == a.r15 && y[9] == b.r15);
    assert(x[10] == a.resume && y[10] == b.resume);
    assert(x[11] == a.rcx && y[11] == b.rcx);
    assert(x[12] == a.r8 && y[12] == b.r8);
    assert(x[13] == a.r9 && y[13] == b.r9);
    assert(x[14] == a.r10 && y[14] == b.r10);
    assert(x[15] == a.r11 && y[15] == b.r11);
}

/// The exit fields of a stopped VMCS.
#[derive(Clone, Copy, Debug, PartialEq, Eq, Structural)]
pub struct ExitFields {
    pub reason: u64,
    pub interruption_info: u64,
    pub guest_physical_address: u64,
    pub qualification: u64,
}

/// An exit that carries nothing but its reason.
pub open spec fn bare_exit(reason: VmExitReason, raw_reason: u64) -> VmExit {
    VmExit {
        reason,
        raw_reason,
        hypercall_number: 0,
        arg0: 0,
        arg1: 0,
        arg2: 0,
        msr: 0,
        msr_value: 0,
        cpuid_leaf: 0,
        cpuid_subleaf: 0,
        fault_address: 0,
        fault_info: 0,
    }
}

/// A valid external interrupt, and not an exception.
pub open spec fn is_external_interrupt(info: u64) -> bool {
    info & 0x8000_0000 != 0 && info & 0x700 == 0
}

/// What the exit fields and the registers of a stopped guest mean.
pub open spec fn exit_of(context: VmxRunContext, fields: ExitFields) -> Result<VmExit, Error> {
    let reason = fields.reason & 0xffff;
    if reason == INTERRUPT_WINDOW_EXIT_REASON {
        Ok(bare_exit(VmExitReason::InterruptWindow, reason))
    } else if reason == EXTERNAL_INTERRUPT_EXIT_REASON && is_external_interrupt(
        fields.interruption_info,
    ) {
        Ok(
            VmExit {
                fault_info: fields.interruption_info,
                ..bare_exit(VmExitReason::Preempted, reason)
            },
        )
    } else if reason == HLT_EXIT_REASON {
        Ok(bare_exit(VmExitReason::Halt, reason))
    } else if reason == VMCALL_EXIT_REASON {
        Ok(
            VmExit {
                hypercall_number: context.rax,
                arg0: context.rdi,
                arg1: context.rsi,
                arg2: context.rdx,
                ..bare_exit(VmExitReason::Hypercall, reason)
            },
        )
    } else if reason == RDMSR_EXIT_REASON {
        Ok(VmExit { msr: context.rcx as u32, ..bare_exit(VmExitReason::MsrRead, reason) })
    } else if reason == WRMSR_EXIT_REASON {
        Ok(
            VmExit {
                msr: context.rcx as u32,
                msr_value: (context.rax as u32 as u64) | ((context.rdx as u32 as u64) << 32),
                ..bare_exit(VmExitReason::MsrWrite, reason)
            },
        )
    } else if reason == CPUID_EXIT_REASON {
        Ok(
            VmExit {
                cpuid_leaf: context.rax as u32,
                cpuid_subleaf: context.rcx as u32,
                ..bare_exit(VmExitReason::Cpuid, reason)
            },
        )
    } else if reason == EPT_VIOLATION_EXIT_REASON {
        Ok(
            VmExit {
                fault_address: fields.guest_physical_address,
                fault_info: fields.qualification,
                ..bare_exit(VmExitReason::NestedPageFault, reason)
            },
        )
    } else {
        Err(Error::UnexpectedVmExit(reason))
    }
}

fn new_exit(reason: VmExitReason, raw_reason: u64) -> (r: VmExit)
    ensures
        r == bare_exit(reason, raw_reason),
{
    VmExit {
        reason,
        raw_reason,
        hypercall_number: 0,
        arg0: 0,
        arg1: 0,
        arg2: 0,
        msr: 0,
        msr_value: 0,
        cpuid_leaf: 0,
        cpuid_subleaf: 0,
        fault_address: 0,
        fault_info: 0,
    }
}

/// One vCPU under VMX.
#[derive(Clone, Copy, Debug, PartialEq, Eq, Structural)]
pub struct Vmx {
    pub revision_id: u32,
    pub vmcs_phys: u64,
    pub active: bool,
    pub owns_vmx_operation: bool,
    pub run_context: VmxRunContext,
}

impl Vmx {
    /// The vCPU of a CPU that has just entered VMX operation.
    pub fn enabled(revision_id: u32, vmcs_phys: u64) -> (r: Self)
        ensures
            r == (Vmx {
                revision_id,
                vmcs_phys,
                active: true,
                owns_vmx_operation: true,
                run_context: empty_context(),
            }),
    {
        Vmx {
            revision_id,
            vmcs_phys,
            active: true,
            owns_vmx_operation: true,
            run_context: VmxRunContext::default(),
        }
    }

    /// Another vCPU on the same CPU. `basic` is the capability MSR that says
    /// where a VMCS may lie.
    pub fn create_vcpu(&self, vmcs_phys: u64, basic: u64) -> (r: Result<Self, Error>)
        ensures
            r == (if !is_control_page(vmcs_phys) {
                Err(Error::InvalidPage)
            } else if !self.active {
                Err(Error::InvalidState)
            } else if !is_control_region_address(basic, vmcs_phys) {
                Err(Error::InvalidPage)
            } else {
                Ok(
                    Vmx {
                        revision_id: self.revision_id,
                        vmcs_phys,
                        active: true,
                        owns_vmx_operation: false,
                        run_context: empty_context(),
                    },
                )
            }),
    {
        validate_page(vmcs_phys)?;
        if !self.active {
            return Err(Error::InvalidState);
        }
        if !control_region_address_valid(basic, vmcs_phys) {
            return Err(Error::InvalidPage);
        }
        Ok(
            Vmx {
                revision_id: self.revision_id,
                vmcs_phys,
                active: true,
                owns_vmx_operation: false,
                run_context: VmxRunContext::default(),
            },
        )
    }

    pub fn revision_id(&self) -> (r: u32)
        ensures
            r == self.revision_id,
    {
        self.revision_id
    }

    pub fn vmcs_phys(&self) -> (r: u64)
        ensures
            r == self.vmcs_phys,
    {
        self.vmcs_phys
    }

    /// What every operation on a vCPU checks first.
    pub fn require_active(&self) -> (r: Result<(), Error>)
        ensures
            r == (if self.active {
                Ok(())
            } else {
                Err(Error::InvalidState)
            }),
    {
        if self.active {
            Ok(())
        } else {
            Err(Error::InvalidState)
        }
    }

    /// Forgets the guest's registers, once its VMCS has been cleared.
    pub fn reset(&mut self, cleared: bool) -> (r: Result<(), Error>)
        ensures
            r == (if !old(self).active {
                Err(Error::InvalidState)
            } else if !cleared {
                Err(Error::ControlInstructionFailed)
            } else {
                Ok(())
            }),
            *final(self) == (if r is Ok {
                Vmx { run_context: empty_context(), ..*old(self) }
            } else {
                *old(self)
            }),
    {
        self.require_active()?;
        if !cleared {
            return Err(Error::ControlInstructionFailed);
        }
        self.run_context = VmxRunContext::default();
        Ok(())
    }

    /// Leaves VMX operation; says whether this vCPU has to turn it off.
    pub fn disable(&mut self) -> (r: bool)
        ensures
            *final(self) == (Vmx { active: false, ..*old(self) }),
            r == (old(self).active && old(self).owns_vmx_operation),
    {
        let turn_off = self.active && self.owns_vmx_operation;
        self.active = false;
        turn_off
    }

    /// The registers with which the guest starts: the boot information is in the
    /// register where its boot protocol expects it.
    pub fn start(&mut self, config: &GuestConfig) -> (r: Result<(), Error>)
        ensures
            r == (if old(self).active {
                Ok(())
            } else {
                Err(Error::InvalidState)
            }),
            *final(self) == (if r is Ok {
                Vmx { run_context: start_context(*config), ..*old(self) }
            } else {
                *old(self)
            }),
    {
        self.require_active()?;
        let mut context = VmxRunContext::default();
        match config.boot_mode {
            GuestBootMode::Long64 => {
                context.rdi = config.boot_info;
            },
            GuestBootMode::LinuxPvh32 => {
                context.rbx = config.boot_info;
            },
        }
        self.run_context = context;
        Ok(())
    }

    /// Completes a hypercall.
    pub fn complete_hypercall(&mut self, result: u64) -> (r: Result<(), Error>)
        ensures
            r == (if old(self).active {
                Ok(())
            } else {
                Err(Error::InvalidState)
            }),
            *final(self) == (if r is Ok {
                Vmx {
                    run_context: VmxRunContext { rax: result, resume: 1, ..old(self).run_context },
                    ..*old(self)
                }
            } else {
                *old(self)
            }),
    {
        self.require_active()?;
        self.run_context.rax = result;
        self.run_context.resume = 1;
        Ok(())
    }

    /// Completes an instruction, or a preemption, that changes no register.
    pub fn complete(&mut self) -> (r: Result<(), Error>)
        ensures
            r == (if old(self).active {
                Ok(())
            } else {
                Err(Error::InvalidState)
            }),
            *final(self) == (if r is Ok {
                Vmx {
                    run_context: VmxRunContext { resume: 1, ..old(self).run_context },
                    ..*old(self)
                }
            } else {
                *old(self)
            }),
    {
        self.require_active()?;
        self.run_context.resume = 1;
        Ok(())
    }

    /// Completes an RDMSR. The value is in the registers even of a vCPU that cannot go
    /// on.
    pub fn complete_msr_read(&mut self, value: u64) -> (r: Result<(), Error>)
        ensures
            r == (if old(self).active {
                Ok(())
            } else {
                Err(Error::InvalidState)
            }),
            *final(self) == (Vmx {
                run_context: VmxRunContext {
                    rax: value as u32 as u64,
                    rdx: (value >> 32) as u32 as u64,
                    resume: if r is Ok {
                        1
                    } else {
                        old(self).run_context.resume
                    },
                    ..old(self).run_context
                },
                ..*old(self)
            }),
    {
        self.run_context.rax = value as u32 as u64;
        self.run_context.rdx = (value >> 32) as u32 as u64;
        self.complete()
    }

    /// Completes a CPUID. The values are in the registers even of a vCPU that cannot go
    /// on.
    pub fn complete_cpuid(&mut self, result: &CpuidResult) -> (r: Result<(), Error>)
        ensures
            r == (if old(self).active {
                Ok(())
            } else {
                Err(Error::InvalidState)
            }),
            *final(self) == (Vmx {
                run_context: VmxRunContext {
                    rax: result.eax as u64,
                    rbx: result.ebx as u64,
                    rcx: result.ecx as u64,
                    rdx: result.edx as u64,
                    resume: if r is Ok {
                        1
                    } else {
                        old(self).run_context.resume
                    },
                    ..old(self).run_context
                },
                ..*old(self)
            }),
    {
        self.run_context.rax = result.eax as u64;
        self.run_context.rbx = result.ebx as u64;
        self.run_context.rcx = result.ecx as u64;
        self.run_context.rdx = result.edx as u64;
        self.complete()
    }

    /// Says why the guest stopped and what it asks for.
    pub fn decode_exit(&self, fields: &ExitFields) -> (r: Result<VmExit, Error>)
        ensures
            r == exit_of(self.run_context, *fields),
    {
        let reason: u64 = fields.reason & 0xffff;
        let context = self.run_context;
        match reason {
            INTERRUPT_WINDOW_EXIT_REASON => Ok(new_exit(VmExitReason::InterruptWindow, reason)),
            EXTERNAL_INTERRUPT_EXIT_REASON => {
                let info: u64 = fields.interruption_info;
                if info & 0x8000_0000 != 0 && info & 0x700 == 0 {
                    let mut exit = new_exit(VmExitReason::Preempted, reason);
                    exit.fault_info = info;
                    Ok(exit)
                } else {
                    Err(Error::UnexpectedVmExit(reason))
                }
            },
            HLT_EXIT_REASON => Ok(new_exit(VmExitReason::Halt, reason)),
            VMCALL_EXIT_REASON => {
                let mut exit = new_exit(VmExitReason::Hypercall, reason);
                exit.hypercall_number = context.rax;
                exit.arg0 = context.rdi;
                exit.arg1 = context.rsi;
                exit.arg2 = context.rdx;
                Ok(exit)
            },
            RDMSR_EXIT_REASON => {
                let mut exit = new_exit(VmExitReason::MsrRead, reason);
                exit.msr = context.rcx as u32;
                Ok(exit)
            },
            WRMSR_EXIT_REASON => {
                let mut exit = new_exit(VmExitReason::MsrWrite, reason);
                exit.msr = context.rcx as u32;
                exit.msr_value = (context.rax as u32 as u64) | ((context.rdx as u32 as u64) << 32);
                Ok(exit)
            },
            CPUID_EXIT_REASON => {
                let mut exit = new_exit(VmExitReason::Cpuid, reason);
                exit.cpuid_leaf = context.rax as u32;
                exit.cpuid_subleaf = context.rcx as u32;
                Ok(exit)
            },
            EPT_VIOLATION_EXIT_REASON => {
                let mut exit = new_exit(VmExitReason::NestedPageFault, reason);
                exit.fault_address = fields.guest_physical_address;
                exit.fault_info = fields.qualification;
                Ok(exit)
            },
            _ => Err(Error::UnexpectedVmExit(reason)),
        }
    }

    /// Whether an intercepted access to this MSR is emulated, for a vCPU that is
    /// active: only EFER is.
    pub fn require_guest_msr(&self, msr: u32) -> (r: Result<(), Error>)
        ensures
            r == (if self.active && msr == IA32_EFER {
                Ok(())
            } else {
                Err(Error::InvalidState)
            }),
    {
        if !self.active || msr != IA32_EFER {
            return Err(Error::InvalidState);
        }
        Ok(())
    }

    /// The EFER value after an intercepted write of `value`, where the stopped
    /// guest has `efer` and `cr0`.
    pub fn write_guest_msr(
        &self,
        msr: u32,
        value: u64,
        efer: u64,
        cr0: u64,
    ) -> (r: Result<u64, Error>)
        ensures
            r == (if !self.active || msr != IA32_EFER {
                Err(Error::InvalidState)
            } else {
                match efer_after(efer, cr0, value) {
                    Some(updated) => Ok::<u64, Error>(updated),
                    None => Err(Error::InvalidState),
                }
            }),
    {
        self.require_guest_msr(msr)?;
        match updated_guest_efer(efer, cr0, value) {
            Some(updated) => Ok(updated),
            None => Err(Error::InvalidState),
        }
    }
}

/// The registers with which a guest starts.
pub open spec fn start_context(config: GuestConfig) -> VmxRunContext {
    match config.boot_mode {
        GuestBootMode::Long64 => VmxRunContext { rdi: config.boot_info, ..empty_context() },
        GuestBootMode::LinuxPvh32 => VmxRunContext { rbx: config.boot_info, ..empty_context() },
    }
}

pub open spec fn is_control_page(phys: u64) -> bool {
    phys != 0 && phys % 0x1000 == 0
}

/// A control region must be a page of its own.
pub fn validate_page(phys: u64) -> (r: Result<(), Error>)
    ensures
        r == (if is_control_page(phys) {
            Ok(())
        } else {
            Err(Error::InvalidPage)
        }),
{
    if phys == 0 || phys % 0x1000 != 0 {
        Err(Error::InvalidPage)
    } else {
        Ok(())
    }
}

/// Bit 48 of the basic capability MSR confines control regions to 32 bits.
pub open spec fn is_control_region_address(basic: u64, phys: u64) -> bool {
    basic & 0x1_0000_0000_0000 == 0 || phys <= 0xffff_ffff
}

pub fn control_region_address_valid(vmx_basic: u64, phys: u64) -> (r: bool)
    ensures
        r == is_control_region_address(vmx_basic, phys),
{
    let restricted_to_32_bits = vmx_basic & 0x1_0000_0000_0000 != 0;
    !restricted_to_32_bits || phys <= 0xffff_ffff
}

/// Sets the bits that must be one and clears those that must be zero.
pub fn adjusted_control_register(current: u64, fixed_zero: u64, fixed_one: u64) -> (r: u64)
    ensures
        r == (current | fixed_zero) & fixed_one,
{
    (current | fixed_zero) & fixed_one
}

/// Adds the controls that the processor requires (the low half of the capability
/// MSR) and removes those it does not offer (the high half).
pub fn adjusted_vm_control(desired: u64, capability: u64) -> (r: u64)
    ensures
        r == vm_control(desired, capability),
{
    (desired | (capability & 0xffff_ffff)) & (capability >> 32)
}

pub open spec fn vm_control(desired: u64, capability: u64) -> u64 {
    (desired | (capability & 0xffff_ffff)) & (capability >> 32)
}

/// An adjusted control sets nothing that the processor does not offer, and
/// everything offered that was wanted or is required.
pub proof fn law_controls_are_allowed(desired: u64, capability: u64)
    ensures
        ({
            let r = vm_control(desired, capability);
            let offered = capability >> 32;
            &&& r & !offered == 0
            &&& r & desired == desired & offered
            &&& capability & 0xffff_ffff & !offered == 0 ==> r & (capability & 0xffff_ffff)
                == capability & 0xffff_ffff
        }),
{
    assert({
        let r = (desired | (capability & 0xffff_ffff)) & (capability >> 32);
        let offered = capability >> 32;
        &&& r & !offered == 0
        &&& r & desired == desired & offered
        &&& capability & 0xffff_ffff & !offered == 0 ==> r & (capability & 0xffff_ffff) == capability
            & 0xffff_ffff
    }) by (bit_vector);
}

pub open spec fn ept_supported(primary: u64, secondary: u64, ept: u64) -> bool {
    &&& (primary >> 32) & 0x8000_0000 != 0
    &&& (secondary >> 32) & 0x2 != 0
    &&& ept & 0x40 != 0
    &&& ept & 0x4000 != 0
    &&& ept & 0x10_0000 != 0
    &&& ept & 0x200_0000 != 0
}

/// Whether the processor offers secondary controls with EPT, four-level walks,
/// write-back tables and single-context invalidation.
pub fn supports_ept(primary: u64, secondary: u64, ept: u64) -> (r: bool)
    ensures
        r == ept_supported(primary, secondary, ept),
{
    let secondary_controls = (primary >> 32) & 0x8000_0000 != 0;
    let ept_control = (secondary >> 32) & 0x2 != 0;
    let four_level_walk = ept & 0x40 != 0;
    let write_back = ept & 0x4000 != 0;
    let invept = ept & 0x10_0000 != 0;
    let single_context_invept = ept & 0x200_0000 != 0;
    secondary_controls && ept_control && four_level_walk && write_back && invept
        && single_context_invept
}

/// The bits of EFER that a guest may change.
pub const EFER_GUEST_WRITABLE: u64 = 0x901;

pub open spec fn efer_after(current: u64, cr0: u64, requested: u64) -> Option<u64> {
    if requested & !EFER_GUEST_WRITABLE != current & !EFER_GUEST_WRITABLE || (cr0 & CR0_PAGING != 0
        && (requested ^ current) & EFER_LME != 0) {
        None
    } else {
        Some((current & !EFER_GUEST_WRITABLE) | (requested & EFER_GUEST_WRITABLE))
    }
}

/// The EFER that results from a guest's write: only system calls, long mode and
/// no-execute can be switched, and long mode only while paging is off.
pub fn updated_guest_efer(current: u64, cr0: u64, requested: u64) -> (r: Option<u64>)
    ensures
        r == efer_after(current, cr0, requested),
{
    if requested & !EFER_GUEST_WRITABLE != current & !EFER_GUEST_WRITABLE {
        return None;
    }
    if cr0 & CR0_PAGING != 0 && (requested ^ current) & EFER_LME != 0 {
        return None;
    }
    Some((current & !EFER_GUEST_WRITABLE) | (requested & EFER_GUEST_WRITABLE))
}

/// An accepted EFER write takes effect exactly, and cannot toggle long mode
/// while paging is on.
pub proof fn law_efer_write_is_exact(current: u64, cr0: u64, requested: u64)
    requires
        efer_after(current, cr0, requested) is Some,
    ensures
        efer_after(current, cr0, requested) == Some(requested),
        cr0 & CR0_PAGING != 0 ==> requested & EFER_LME == current & EFER_LME,
{
    assert((current & !0x901u64) | (requested & 0x901) == requested) by (bit_vector)
        requires
            requested & !0x901u64 == current & !0x901u64,
    ;
    if cr0 & CR0_PAGING != 0 {
        assert(requested & 0x100 == current & 0x100) by (bit_vector)
            requires
                (requested ^ current) & 0x100 == 0,
        ;
    }
}

/// The control-register bits that the host keeps from the guest.
pub fn fixed_mask_for_guest(fixed0: u64, guest_owned: u64) -> (r: u64)
    ensures
        r == fixed0 & !guest_owned,
{
    fixed0 & !guest_owned
}

/// Whether the stopped guest can take an external interrupt on its next entry.
pub fn can_inject_interrupt(rflags: u64, interruptibility: u64) -> (r: bool)
    ensures
        r == (rflags & 0x200 != 0 && interruptibility & 0x3 == 0),
{
    rflags & 0x200 != 0 && interruptibility & 0x3 == 0
}

/// The primary controls with interrupt-window exits on or off.
pub fn interrupt_window_controls(controls: u64, enabled: bool) -> (r: u64)
    ensures
        r == (if enabled {
            controls | INTERRUPT_WINDOW_EXITING
        } else {
            controls & !INTERRUPT_WINDOW_EXITING
        }),
{
    if enabled {
        controls | INTERRUPT_WINDOW_EXITING
    } else {
        controls & !INTERRUPT_WINDOW_EXITING
    }
}

/// The entry controls for a guest with this EFER: IA-32e mode follows LMA.
pub fn synchronized_entry_controls(efer: u64, controls: u64) -> (r: u64)
    ensures
        r == (if efer & EFER_LMA != 0 {
            controls | ENTRY_IA32E_MODE
        } else {
            controls & !ENTRY_IA32E_MODE
        }),
{
    if efer & EFER_LMA != 0 {
        controls | ENTRY_IA32E_MODE
    } else {
        controls & !ENTRY_IA32E_MODE
    }
}

/// The entry-interruption field that delivers an external interrupt.
pub fn interrupt_injection(vector: u8) -> (r: u64)
    ensures
        r == 0x8000_0000u64 | (vector as u64),
{
    0x8000_0000 | (vector as u64)
}

/// The entry-interruption field that delivers a general-protection fault with an
/// error code.
pub fn general_protection_injection() -> (r: u64)
    ensures
        r == 0x8000_0b0d,
{
    0x8000_0b0d
}

/// Where the guest continues after an intercepted instruction.
pub fn next_instruction(rip: u64, length: u64) -> (r: u64)
    requires
        rip + length <= u64::MAX,
    ensures
        r == rip + length,
{
    rip + length
}

/// One step of preparing a VMCS.
#[derive(Clone, Copy, Debug, PartialEq, Eq, Structural)]
pub enum VmcsAction {
    /// Write a field of the current VMCS; a failure ends the preparation with
    /// `Error::VmcsWriteFailed` and the field.
    Write { field: u64, value: u64 },
    /// Fill the page with the MSR lists of the guest and the host.
    StoreMsrLists { page: u64 },
}

/// The steps of preparing a VMCS, and what comes of it once all succeeded.
pub struct VmcsProgram {
    pub actions: Vec<VmcsAction>,
    pub result: Result<(), Error>,
}

/// The capability MSRs that say which controls may be set.
#[derive(Clone, Copy, Debug, PartialEq, Eq, Structural)]
pub struct ControlMsrs {
    pub pin: u32,
    pub primary: u32,
    pub exit: u32,
    pub entry: u32,
}

/// What those MSRs, and the one for the secondary controls, hold.
#[derive(Clone, Copy, Debug, PartialEq, Eq, Structural)]
pub struct ControlCapabilities {
    pub pin: u64,
    pub primary: u64,
    pub secondary: u64,
    pub exit: u64,
    pub entry: u64,
}

/// The five control words of a VMCS.
#[derive(Clone, Copy, Debug, PartialEq, Eq, Structural)]
pub struct VmControls {
    pub pin: u64,
    pub primary: u64,
    pub secondary: u64,
    pub exit: u64,
    pub entry: u64,
}

/// The bits of CR0 and CR4 that VMX fixes, and the host's page attributes.
#[derive(Clone, Copy, Debug, PartialEq, Eq, Structural)]
pub struct FixedBits {
    pub cr0_fixed0: u64,
    pub cr0_fixed1: u64,
    pub cr4_fixed0: u64,
    pub cr4_fixed1: u64,
    pub pat: u64,
}

/// The state to which the processor returns after an exit.
#[derive(Clone, Copy, Debug, PartialEq, Eq, Structural)]
pub struct HostState {
    pub es: u16,
    pub cs: u16,
    pub ss: u16,
    pub ds: u16,
    pub fs: u16,
    pub gs: u16,
    pub tr: u16,
    pub cr0: u64,
    pub cr3: u64,
    pub cr4: u64,
    pub fs_base: u64,
    pub gs_base: u64,
    pub tr_base: u64,
    pub gdt_base: u64,
    pub idt_base: u64,
    pub sysenter_cs: u64,
    pub sysenter_esp: u64,
    pub sysenter_eip: u64,
    pub efer: u64,
    pub pat: u64,
}

/// Bit 55 of the basic capability MSR says that the controls have a second,
/// exact set of capability MSRs.
pub fn control_msrs(basic: u64) -> (r: ControlMsrs)
    ensures
        r == (if basic & 0x80_0000_0000_0000 != 0 {
            ControlMsrs {
                pin: IA32_VMX_TRUE_PINBASED_CTLS,
                primary: IA32_VMX_TRUE_PROCBASED_CTLS,
                exit: IA32_VMX_TRUE_EXIT_CTLS,
                entry: IA32_VMX_TRUE_ENTRY_CTLS,
            }
        } else {
            ControlMsrs {
                pin: IA32_VMX_PINBASED_CTLS,
                primary: IA32_VMX_PROCBASED_CTLS,
                exit: IA32_VMX_EXIT_CTLS,
                entry: IA32_VMX_ENTRY_CTLS,
            }
        }),
{
    if basic & 0x80_0000_0000_0000 != 0 {
        ControlMsrs {
            pin: IA32_VMX_TRUE_PINBASED_CTLS,
            primary: IA32_VMX_TRUE_PROCBASED_CTLS,
            exit: IA32_VMX_TRUE_EXIT_CTLS,
            entry: IA32_VMX_TRUE_ENTRY_CTLS,
        }
    } else {
        ControlMsrs {
            pin: IA32_VMX_PINBASED_CTLS,
            primary: IA32_VMX_PROCBASED_CTLS,
            exit: IA32_VMX_EXIT_CTLS,
            entry: IA32_VMX_ENTRY_CTLS,
        }
    }
}

/// External-interrupt exits.
pub const PIN_WANTED: u64 = 0x1;

/// HLT exits, MSR bitmaps and secondary controls.
pub const PRIMARY_WANTED: u64 = 0x9000_0080;

/// The use of MSR bitmaps.
pub const PRIMARY_MSR_BITMAPS: u64 = 0x1000_0000;

/// EPT.
pub const SECONDARY_EPT: u64 = 0x2;

/// Guests that start without paging.
pub const SECONDARY_UNRESTRICTED: u64 = 0x80;

/// A 64-bit host, interrupt acknowledgement, and EFER switching.
pub const EXIT_WANTED: u64 = 0x30_8200;

/// Saving and loading the page attributes.
pub const EXIT_PAT: u64 = 0xc_0000;

/// Interrupt acknowledgement on exit.
pub const EXIT_ACKNOWLEDGE: u64 = 0x8000;

/// Loading EFER on entry.
pub const ENTRY_EFER: u64 = 0x8000;

/// Loading the page attributes on entry.
pub const ENTRY_PAT: u64 = 0x4000;

pub open spec fn wanted_controls(pvh: bool, caps: ControlCapabilities) -> VmControls {
    VmControls {
        pin: vm_control(PIN_WANTED, caps.pin),
        primary: vm_control(PRIMARY_WANTED, caps.primary),
        secondary: vm_control(
            if pvh {
                SECONDARY_EPT | SECONDARY_UNRESTRICTED
            } else {
                SECONDARY_EPT
            },
            caps.secondary,
        ),
        exit: vm_control(
            if pvh {
                EXIT_WANTED | EXIT_PAT
            } else {
                EXIT_WANTED
            },
            caps.exit,
        ),
        entry: vm_control(
            if pvh {
                ENTRY_PAT | ENTRY_EFER
            } else {
                ENTRY_IA32E_MODE | ENTRY_EFER
            },
            caps.entry,
        ),
    }
}

/// The controls that a guest needs, or what the processor lacks for it.
pub open spec fn controls_for(
    boot_mode: GuestBootMode,
    caps: ControlCapabilities,
) -> Result<VmControls, Error> {
    let pvh = boot_mode == GuestBootMode::LinuxPvh32;
    let c = wanted_controls(pvh, caps);
    if (caps.primary >> 32) & INTERRUPT_WINDOW_EXITING == 0 {
        Err(Error::InterruptVirtualizationUnavailable)
    } else if c.secondary & SECONDARY_EPT == 0 {
        Err(Error::NestedPagingUnavailable)
    } else if c.primary & PRIMARY_MSR_BITMAPS == 0 {
        Err(Error::UnsupportedCpu)
    } else if pvh && c.secondary & SECONDARY_UNRESTRICTED == 0 {
        Err(Error::UnsupportedCpu)
    } else if c.pin & PIN_WANTED == 0 || c.exit & EXIT_ACKNOWLEDGE == 0 {
        Err(Error::InterruptVirtualizationUnavailable)
    } else {
        Ok(c)
    }
}

/// Chooses the controls for a guest.
pub fn choose_controls(
    boot_mode: GuestBootMode,
    caps: &ControlCapabilities,
) -> (r: Result<VmControls, Error>)
    ensures
        r == controls_for(boot_mode, *caps),
{
    if (caps.primary >> 32) & INTERRUPT_WINDOW_EXITING == 0 {
        return Err(Error::InterruptVirtualizationUnavailable);
    }
    let pvh = boot_mode == GuestBootMode::LinuxPvh32;
    let pin: u64 = adjusted_vm_control(PIN_WANTED, caps.pin);
    let primary: u64 = adjusted_vm_control(PRIMARY_WANTED, caps.primary);
    let secondary: u64 = adjusted_vm_control(
        if pvh { SECONDARY_EPT | SECONDARY_UNRESTRICTED } else { SECONDARY_EPT },
        caps.secondary,
    );
    let exit: u64 = adjusted_vm_control(
        if pvh { EXIT_WANTED | EXIT_PAT } else { EXIT_WANTED },
        caps.exit,
    );
    let entry: u64 = adjusted_vm_control(
        if pvh { ENTRY_PAT | ENTRY_EFER } else { ENTRY_IA32E_MODE | ENTRY_EFER },
        caps.entry,
    );
    if secondary & SECONDARY_EPT == 0 {
        return Err(Error::NestedPagingUnavailable);
    }
    if primary & PRIMARY_MSR_BITMAPS == 0 {
        return Err(Error::UnsupportedCpu);
    }
    if pvh && secondary & SECONDARY_UNRESTRICTED == 0 {
        return Err(Error::UnsupportedCpu);
    }
    if pin & PIN_WANTED == 0 || exit & EXIT_ACKNOWLEDGE == 0 {
        return Err(Error::InterruptVirtualizationUnavailable);
    }
    Ok(VmControls { pin, primary, secondary, exit, entry })
}

/// The control fields.
pub open spec fn control_writes(c: VmControls) -> Seq<VmcsAction> {
    seq![
        VmcsAction::Write { field: PIN_BASED_CONTROLS, value: c.pin },
        VmcsAction::Write { field: PRIMARY_CONTROLS, value: c.primary },
        VmcsAction::Write { field: SECONDARY_CONTROLS, value: c.secondary },
        VmcsAction::Write { field: EXIT_CONTROLS, value: c.exit },
        VmcsAction::Write { field: ENTRY_CONTROLS, value: c.entry },
        VmcsAction::Write { field: EXCEPTION_BITMAP, value: 0 },
        VmcsAction::Write { field: PAGE_FAULT_ERROR_MASK, value: 0 },
        VmcsAction::Write { field: PAGE_FAULT_ERROR_MATCH, value: 0 },
        VmcsAction::Write { field: CR3_TARGET_COUNT, value: 0 },
        VmcsAction::Write { field: EXIT_MSR_STORE_COUNT, value: GUEST_MSR_COUNT },
        VmcsAction::Write { field: EXIT_MSR_LOAD_COUNT, value: GUEST_MSR_COUNT },
        VmcsAction::Write { field: ENTRY_MSR_LOAD_COUNT, value: GUEST_MSR_COUNT },
        VmcsAction::Write { field: ENTRY_INTERRUPTION_INFO, value: 0 },
    ]
}

fn push_control(out: &mut Vec<VmcsAction>, c: VmControls)
    ensures
        final(out)@ == old(out)@ + control_writes(c),
{
    out.push(VmcsAction::Write { field: PIN_BASED_CONTROLS, value: c.pin });
    out.push(VmcsAction::Write { field: PRIMARY_CONTROLS, value: c.primary });
    out.push(VmcsAction::Write { field: SECONDARY_CONTROLS, value: c.secondary });
    out.push(VmcsAction::Write { field: EXIT_CONTROLS, value: c.exit });
    out.push(VmcsAction::Write { field: ENTRY_CONTROLS, value: c.entry });
    out.push(VmcsAction::Write { field: EXCEPTION_BITMAP, value: 0 });
    out.push(VmcsAction::Write { field: PAGE_FAULT_ERROR_MASK, value: 0 });
    out.push(VmcsAction::Write { field: PAGE_FAULT_ERROR_MATCH, value: 0 });
    out.push(VmcsAction::Write { field: CR3_TARGET_COUNT, value: 0 });
    out.push(VmcsAction::Write { field: EXIT_MSR_STORE_COUNT, value: GUEST_MSR_COUNT });
    out.push(VmcsAction::Write { field: EXIT_MSR_LOAD_COUNT, value: GUEST_MSR_COUNT });
    out.push(VmcsAction::Write { field: ENTRY_MSR_LOAD_COUNT, value: GUEST_MSR_COUNT });
    out.push(VmcsAction::Write { field: ENTRY_INTERRUPTION_INFO, value: 0 });
    assert(out@ =~= old(out)@ + control_writes(c));
}

/// The guest's selectors, which match its cached segments.
pub open spec fn selector_writes() -> Seq<VmcsAction> {
    seq![
        VmcsAction::Write { field: GUEST_ES_SELECTOR, value: 0x10 },
        VmcsAction::Write { field: GUEST_CS_SELECTOR, value: 0x08 },
        VmcsAction::Write { field: GUEST_SS_SELECTOR, value: 0x10 },
        VmcsAction::Write { field: GUEST_DS_SELECTOR, value: 0x10 },
        VmcsAction::Write { field: GUEST_FS_SELECTOR, value: 0x10 },
        VmcsAction::Write { field: GUEST_GS_SELECTOR, value: 0x10 },
        VmcsAction::Write { field: GUEST_LDTR_SELECTOR, value: 0 },
        VmcsAction::Write { field: GUEST_TR_SELECTOR, value: 0x18 },
    ]
}

fn push_selector(out: &mut Vec<VmcsAction>)
    ensures
        final(out)@ == old(out)@ + selector_writes(),
{
    out.push(VmcsAction::Write { field: GUEST_ES_SELECTOR, value: 0x10 });
    out.push(VmcsAction::Write { field: GUEST_CS_SELECTOR, value: 0x08 });
    out.push(VmcsAction::Write { field: GUEST_SS_SELECTOR, value: 0x10 });
    out.push(VmcsAction::Write { field: GUEST_DS_SELECTOR, value: 0x10 });
    out.push(VmcsAction::Write { field: GUEST_FS_SELECTOR, value: 0x10 });
    out.push(VmcsAction::Write { field: GUEST_GS_SELECTOR, value: 0x10 });
    out.push(VmcsAction::Write { field: GUEST_LDTR_SELECTOR, value: 0 });
    out.push(VmcsAction::Write { field: GUEST_TR_SELECTOR, value: 0x18 });
    assert(out@ =~= old(out)@ + selector_writes());
}

/// Flat limits.
pub open spec fn limit_writes() -> Seq<VmcsAction> {
    seq![
        VmcsAction::Write { field: GUEST_ES_LIMIT, value: 0xffff_ffff },
        VmcsAction::Write { field: GUEST_CS_LIMIT, value: 0xffff_ffff },
        VmcsAction::Write { field: GUEST_SS_LIMIT, value: 0xffff_ffff },
        VmcsAction::Write { field: GUEST_DS_LIMIT, value: 0xffff_ffff },
        VmcsAction::Write { field: GUEST_FS_LIMIT, value: 0xffff_ffff },
        VmcsAction::Write { field: GUEST_GS_LIMIT, value: 0xffff_ffff },
        VmcsAction::Write { field: GUEST_LDTR_LIMIT, value: 0xffff_ffff },
    ]
}

fn push_limit(out: &mut Vec<VmcsAction>)
    ensures
        final(out)@ == old(out)@ + limit_writes(),
{
    out.push(VmcsAction::Write { field: GUEST_ES_LIMIT, value: 0xffff_ffff });
    out.push(VmcsAction::Write { field: GUEST_CS_LIMIT, value: 0xffff_ffff });
    out.push(VmcsAction::Write { field: GUEST_SS_LIMIT, value: 0xffff_ffff });
    out.push(VmcsAction::Write { field: GUEST_DS_LIMIT, value: 0xffff_ffff });
    out.push(VmcsAction::Write { field: GUEST_FS_LIMIT, value: 0xffff_ffff });
    out.push(VmcsAction::Write { field: GUEST_GS_LIMIT, value: 0xffff_ffff });
    out.push(VmcsAction::Write { field: GUEST_LDTR_LIMIT, value: 0xffff_ffff });
    assert(out@ =~= old(out)@ + limit_writes());
}

/// Present, flat, writable data segments.
pub open spec fn data_segment_writes() -> Seq<VmcsAction> {
    seq![
        VmcsAction::Write { field: GUEST_ES_AR, value: 0xc093 },
        VmcsAction::Write { field: GUEST_SS_AR, value: 0xc093 },
        VmcsAction::Write { field: GUEST_DS_AR, value: 0xc093 },
        VmcsAction::Write { field: GUEST_FS_AR, value: 0xc093 },
        VmcsAction::Write { field: GUEST_GS_AR, value: 0xc093 },
    ]
}

fn push_data_segment(out: &mut Vec<VmcsAction>)
    ensures
        final(out)@ == old(out)@ + data_segment_writes(),
{
    out.push(VmcsAction::Write { field: GUEST_ES_AR, value: 0xc093 });
    out.push(VmcsAction::Write { field: GUEST_SS_AR, value: 0xc093 });
    out.push(VmcsAction::Write { field: GUEST_DS_AR, value: 0xc093 });
    out.push(VmcsAction::Write { field: GUEST_FS_AR, value: 0xc093 });
    out.push(VmcsAction::Write { field: GUEST_GS_AR, value: 0xc093 });
    assert(out@ =~= old(out)@ + data_segment_writes());
}

/// The code segment of the boot mode, and the system segments.
pub open spec fn system_segment_writes(pvh: bool) -> Seq<VmcsAction> {
    seq![
        VmcsAction::Write { field: GUEST_CS_AR, value: if pvh { 0xc09b } else { 0xa09b } },
        VmcsAction::Write { field: GUEST_LDTR_AR, value: 0x1_0000 },
        VmcsAction::Write { field: GUEST_TR_AR, value: 0x8b },
        VmcsAction::Write { field: GUEST_TR_LIMIT, value: 0x67 },
        VmcsAction::Write { field: GUEST_GDTR_LIMIT, value: 0 },
        VmcsAction::Write { field: GUEST_IDTR_LIMIT, value: 0 },
    ]
}

fn push_system_segment(out: &mut Vec<VmcsAction>, pvh: bool)
    ensures
        final(out)@ == old(out)@ + system_segment_writes(pvh),
{
    out.push(VmcsAction::Write { field: GUEST_CS_AR, value: if pvh { 0xc09b } else { 0xa09b } });
    out.push(VmcsAction::Write { field: GUEST_LDTR_AR, value: 0x1_0000 });
    out.push(VmcsAction::Write { field: GUEST_TR_AR, value: 0x8b });
    out.push(VmcsAction::Write { field: GUEST_TR_LIMIT, value: 0x67 });
    out.push(VmcsAction::Write { field: GUEST_GDTR_LIMIT, value: 0 });
    out.push(VmcsAction::Write { field: GUEST_IDTR_LIMIT, value: 0 });
    assert(out@ =~= old(out)@ + system_segment_writes(pvh));
}

/// Flat bases.
pub open spec fn base_writes() -> Seq<VmcsAction> {
    seq![
        VmcsAction::Write { field: GUEST_ES_BASE, value: 0 },
        VmcsAction::Write { field: GUEST_CS_BASE, value: 0 },
        VmcsAction::Write { field: GUEST_SS_BASE, value: 0 },
        VmcsAction::Write { field: GUEST_DS_BASE, value: 0 },
        VmcsAction::Write { field: GUEST_FS_BASE, value: 0 },
        VmcsAction::Write { field: GUEST_GS_BASE, value: 0 },
        VmcsAction::Write { field: GUEST_LDTR_BASE, value: 0 },
        VmcsAction::Write { field: GUEST_TR_BASE, value: 0 },
        VmcsAction::Write { field: GUEST_GDTR_BASE, value: 0 },
        VmcsAction::Write { field: GUEST_IDTR_BASE, value: 0 },
        VmcsAction::Write { field: GUEST_SYSENTER_ESP, value: 0 },
        VmcsAction::Write { field: GUEST_SYSENTER_EIP, value: 0 },
    ]
}

fn push_base(out: &mut Vec<VmcsAction>)
    ensures
        final(out)@ == old(out)@ + base_writes(),
{
    out.push(VmcsAction::Write { field: GUEST_ES_BASE, value: 0 });
    out.push(VmcsAction::Write { field: GUEST_CS_BASE, value: 0 });
    out.push(VmcsAction::Write { field: GUEST_SS_BASE, value: 0 });
    out.push(VmcsAction::Write { field: GUEST_DS_BASE, value: 0 });
    out.push(VmcsAction::Write { field: GUEST_FS_BASE, value: 0 });
    out.push(VmcsAction::Write { field: GUEST_GS_BASE, value: 0 });
    out.push(VmcsAction::Write { field: GUEST_LDTR_BASE, value: 0 });
    out.push(VmcsAction::Write { field: GUEST_TR_BASE, value: 0 });
    out.push(VmcsAction::Write { field: GUEST_GDTR_BASE, value: 0 });
    out.push(VmcsAction::Write { field: GUEST_IDTR_BASE, value: 0 });
    out.push(VmcsAction::Write { field: GUEST_SYSENTER_ESP, value: 0 });
    out.push(VmcsAction::Write { field: GUEST_SYSENTER_EIP, value: 0 });
    assert(out@ =~= old(out)@ + base_writes());
}

/// CR0 as the guest asks for it: protected mode, with paging for a 64-bit start.
pub open spec fn requested_cr0(pvh: bool) -> u64 {
    if pvh {
        0x11
    } else {
        0x8001_0033
    }
}

/// CR4 as the guest asks for it: physical address extension for a 64-bit start.
pub open spec fn requested_cr4(pvh: bool) -> u64 {
    if pvh {
        0
    } else {
        0x20
    }
}

/// CR0 with the fixed bits. An unrestricted guest starts without paging and in
/// protected mode whatever VMX otherwise fixes.
pub open spec fn guest_cr0(pvh: bool, fixed: FixedBits) -> u64 {
    let adjusted = (requested_cr0(pvh) | fixed.cr0_fixed0) & fixed.cr0_fixed1;
    if pvh {
        (adjusted & !CR0_PAGING) | 1
    } else {
        adjusted
    }
}

pub open spec fn guest_cr4(pvh: bool, fixed: FixedBits) -> u64 {
    (requested_cr4(pvh) | fixed.cr4_fixed0) & fixed.cr4_fixed1
}

/// The CR0 bits that the guest owns: protection and paging.
pub const CR0_GUEST_OWNED: u64 = 0x8000_0001;

/// Control registers, masks and shadows. The host-required bits stay in the VMCS
/// while the shadows show the guest what it asked for.
pub open spec fn control_register_writes(
    config: GuestConfig,
    pvh: bool,
    cr0: u64,
    cr4: u64,
    wanted_cr0: u64,
    wanted_cr4: u64,
    fixed: FixedBits,
) -> Seq<VmcsAction> {
    seq![
        VmcsAction::Write { field: GUEST_CR0, value: cr0 },
        VmcsAction::Write { field: GUEST_CR3, value: if pvh { 0 } else { config.page_table_root } },
        VmcsAction::Write { field: GUEST_CR4, value: cr4 },
        VmcsAction::Write {
            field: CR0_GUEST_HOST_MASK,
            value: fixed.cr0_fixed0 & !CR0_GUEST_OWNED,
        },
        VmcsAction::Write { field: CR4_GUEST_HOST_MASK, value: fixed.cr4_fixed0 & !0u64 },
        VmcsAction::Write { field: CR0_READ_SHADOW, value: wanted_cr0 },
        VmcsAction::Write { field: CR4_READ_SHADOW, value: wanted_cr4 },
    ]
}

fn push_control_register(
    out: &mut Vec<VmcsAction>,
    config: GuestConfig,
    pvh: bool,
    cr0: u64,
    cr4: u64,
    wanted_cr0: u64,
    wanted_cr4: u64,
    fixed: FixedBits,
)
    ensures
        final(out)@ == old(out)@ + control_register_writes(
            config,
            pvh,
            cr0,
            cr4,
            wanted_cr0,
            wanted_cr4,
            fixed,
        ),
{
    out.push(VmcsAction::Write { field: GUEST_CR0, value: cr0 });
    let root: u64 = if pvh {
        0
    } else {
        config.page_table_root
    };
    out.push(VmcsAction::Write { field: GUEST_CR3, value: root });
    out.push(VmcsAction::Write { field: GUEST_CR4, value: cr4 });
    out.push(
        VmcsAction::Write {
            field: CR0_GUEST_HOST_MASK,
            value: fixed.cr0_fixed0 & !CR0_GUEST_OWNED,
        },
    );
    out.push(VmcsAction::Write { field: CR4_GUEST_HOST_MASK, value: fixed.cr4_fixed0 & !0u64 });
    out.push(VmcsAction::Write { field: CR0_READ_SHADOW, value: wanted_cr0 });
    out.push(VmcsAction::Write { field: CR4_READ_SHADOW, value: wanted_cr4 });
    assert(out@ =~= old(out)@ + control_register_writes(
        config,
        pvh,
        cr0,
        cr4,
        wanted_cr0,
        wanted_cr4,
        fixed,
    ));
}

/// Where and how the guest starts.
pub open spec fn execution_writes(config: GuestConfig, pvh: bool) -> Seq<VmcsAction> {
    seq![
        VmcsAction::Write { field: GUEST_DR7, value: 0x400 },
        VmcsAction::Write { field: GUEST_RSP, value: config.stack },
        VmcsAction::Write { field: GUEST_RIP, value: config.entry },
        VmcsAction::Write { field: GUEST_RFLAGS, value: 2 },
        VmcsAction::Write { field: GUEST_DEBUGCTL, value: 0 },
        VmcsAction::Write { field: GUEST_EFER, value: if pvh { 0 } else { 0xd00 } },
    ]
}

fn push_execution(out: &mut Vec<VmcsAction>, config: GuestConfig, pvh: bool)
    ensures
        final(out)@ == old(out)@ + execution_writes(config, pvh),
{
    out.push(VmcsAction::Write { field: GUEST_DR7, value: 0x400 });
    out.push(VmcsAction::Write { field: GUEST_RSP, value: config.stack });
    out.push(VmcsAction::Write { field: GUEST_RIP, value: config.entry });
    out.push(VmcsAction::Write { field: GUEST_RFLAGS, value: 2 });
    out.push(VmcsAction::Write { field: GUEST_DEBUGCTL, value: 0 });
    out.push(VmcsAction::Write { field: GUEST_EFER, value: if pvh { 0 } else { 0xd00 } });
    assert(out@ =~= old(out)@ + execution_writes(config, pvh));
}

/// The page attributes of a guest that starts without paging.
pub open spec fn pat_writes(pat: u64) -> Seq<VmcsAction> {
    seq![
        VmcsAction::Write { field: GUEST_PAT, value: pat },
    ]
}

fn push_pat(out: &mut Vec<VmcsAction>, pat: u64)
    ensures
        final(out)@ == old(out)@ + pat_writes(pat),
{
    out.push(VmcsAction::Write { field: GUEST_PAT, value: pat });
    assert(out@ =~= old(out)@ + pat_writes(pat));
}

/// An active guest without a shadow VMCS.
pub open spec fn activity_writes() -> Seq<VmcsAction> {
    seq![
        VmcsAction::Write { field: VMCS_LINK_POINTER, value: 0xffff_ffff_ffff_ffff },
        VmcsAction::Write { field: GUEST_INTERRUPTIBILITY, value: 0 },
        VmcsAction::Write { field: GUEST_ACTIVITY_STATE, value: 0 },
        VmcsAction::Write { field: GUEST_SYSENTER_CS, value: 0 },
    ]
}

fn push_activity(out: &mut Vec<VmcsAction>)
    ensures
        final(out)@ == old(out)@ + activity_writes(),
{
    out.push(VmcsAction::Write { field: VMCS_LINK_POINTER, value: 0xffff_ffff_ffff_ffff });
    out.push(VmcsAction::Write { field: GUEST_INTERRUPTIBILITY, value: 0 });
    out.push(VmcsAction::Write { field: GUEST_ACTIVITY_STATE, value: 0 });
    out.push(VmcsAction::Write { field: GUEST_SYSENTER_CS, value: 0 });
    assert(out@ =~= old(out)@ + activity_writes());
}

/// The host's selectors, without privilege level and table bits.
pub open spec fn host_selector_writes(h: HostState) -> Seq<VmcsAction> {
    seq![
        VmcsAction::Write { field: HOST_ES_SELECTOR, value: (h.es & !7u16) as u64 },
        VmcsAction::Write { field: HOST_CS_SELECTOR, value: (h.cs & !7u16) as u64 },
        VmcsAction::Write { field: HOST_SS_SELECTOR, value: (h.ss & !7u16) as u64 },
        VmcsAction::Write { field: HOST_DS_SELECTOR, value: (h.ds & !7u16) as u64 },
        VmcsAction::Write { field: HOST_FS_SELECTOR, value: (h.fs & !7u16) as u64 },
        VmcsAction::Write { field: HOST_GS_SELECTOR, value: (h.gs & !7u16) as u64 },
        VmcsAction::Write { field: HOST_TR_SELECTOR, value: (h.tr & !7u16) as u64 },
    ]
}

fn push_host_selector(out: &mut Vec<VmcsAction>, h: HostState)
    ensures
        final(out)@ == old(out)@ + host_selector_writes(h),
{
    out.push(VmcsAction::Write { field: HOST_ES_SELECTOR, value: (h.es & !7u16) as u64 });
    out.push(VmcsAction::Write { field: HOST_CS_SELECTOR, value: (h.cs & !7u16) as u64 });
    out.push(VmcsAction::Write { field: HOST_SS_SELECTOR, value: (h.ss & !7u16) as u64 });
    out.push(VmcsAction::Write { field: HOST_DS_SELECTOR, value: (h.ds & !7u16) as u64 });
    out.push(VmcsAction::Write { field: HOST_FS_SELECTOR, value: (h.fs & !7u16) as u64 });
    out.push(VmcsAction::Write { field: HOST_GS_SELECTOR, value: (h.gs & !7u16) as u64 });
    out.push(VmcsAction::Write { field: HOST_TR_SELECTOR, value: (h.tr & !7u16) as u64 });
    assert(out@ =~= old(out)@ + host_selector_writes(h));
}

/// The host's registers.
pub open spec fn host_register_writes(h: HostState) -> Seq<VmcsAction> {
    seq![
        VmcsAction::Write { field: HOST_CR0, value: h.cr0 },
        VmcsAction::Write { field: HOST_CR3, value: h.cr3 },
        VmcsAction::Write { field: HOST_CR4, value: h.cr4 },
        VmcsAction::Write { field: HOST_FS_BASE, value: h.fs_base },
        VmcsAction::Write { field: HOST_GS_BASE, value: h.gs_base },
        VmcsAction::Write { field: HOST_TR_BASE, value: h.tr_base },
        VmcsAction::Write { field: HOST_GDTR_BASE, value: h.gdt_base },
        VmcsAction::Write { field: HOST_IDTR_BASE, value: h.idt_base },
        VmcsAction::Write { field: HOST_SYSENTER_CS, value: h.sysenter_cs & 0xffff },
        VmcsAction::Write { field: HOST_SYSENTER_ESP, value: h.sysenter_esp },
        VmcsAction::Write { field: HOST_SYSENTER_EIP, value: h.sysenter_eip },
        VmcsAction::Write { field: HOST_EFER, value: h.efer },
        VmcsAction::Write { field: HOST_PAT, value: h.pat },
    ]
}

fn push_host_register(out: &mut Vec<VmcsAction>, h: HostState)
    ensures
        final(out)@ == old(out)@ + host_register_writes(h),
{
    out.push(VmcsAction::Write { field: HOST_CR0, value: h.cr0 });
    out.push(VmcsAction::Write { field: HOST_CR3, value: h.cr3 });
    out.push(VmcsAction::Write { field: HOST_CR4, value: h.cr4 });
    out.push(VmcsAction::Write { field: HOST_FS_BASE, value: h.fs_base });
    out.push(VmcsAction::Write { field: HOST_GS_BASE, value: h.gs_base });
    out.push(VmcsAction::Write { field: HOST_TR_BASE, value: h.tr_base });
    out.push(VmcsAction::Write { field: HOST_GDTR_BASE, value: h.gdt_base });
    out.push(VmcsAction::Write { field: HOST_IDTR_BASE, value: h.idt_base });
    out.push(VmcsAction::Write { field: HOST_SYSENTER_CS, value: h.sysenter_cs & 0xffff });
    out.push(VmcsAction::Write { field: HOST_SYSENTER_ESP, value: h.sysenter_esp });
    out.push(VmcsAction::Write { field: HOST_SYSENTER_EIP, value: h.sysenter_eip });
    out.push(VmcsAction::Write { field: HOST_EFER, value: h.efer });
    out.push(VmcsAction::Write { field: HOST_PAT, value: h.pat });
    assert(out@ =~= old(out)@ + host_register_writes(h));
}

/// Where the MSR lists are: the host's list follows the guest's.
pub open spec fn msr_list_writes(page: u64, host_list: u64, nested_root: u64) -> Seq<VmcsAction> {
    seq![
        VmcsAction::Write { field: EXIT_MSR_STORE_ADDRESS, value: page },
        VmcsAction::Write { field: ENTRY_MSR_LOAD_ADDRESS, value: page },
        VmcsAction::Write { field: EXIT_MSR_LOAD_ADDRESS, value: host_list },
        VmcsAction::Write { field: EPT_POINTER, value: nested_root },
    ]
}

fn push_msr_list(out: &mut Vec<VmcsAction>, page: u64, host_list: u64, nested_root: u64)
    ensures
        final(out)@ == old(out)@ + msr_list_writes(page, host_list, nested_root),
{
    out.push(VmcsAction::Write { field: EXIT_MSR_STORE_ADDRESS, value: page });
    out.push(VmcsAction::Write { field: ENTRY_MSR_LOAD_ADDRESS, value: page });
    out.push(VmcsAction::Write { field: EXIT_MSR_LOAD_ADDRESS, value: host_list });
    out.push(VmcsAction::Write { field: EPT_POINTER, value: nested_root });
    assert(out@ =~= old(out)@ + msr_list_writes(page, host_list, nested_root));
}

/// Every guest-state field of a VMCS.
pub open spec fn guest_state_writes(config: GuestConfig, fixed: FixedBits) -> Seq<VmcsAction> {
    let pvh = config.boot_mode == GuestBootMode::LinuxPvh32;
    selector_writes() + limit_writes() + data_segment_writes() + system_segment_writes(pvh)
        + base_writes() + control_register_writes(
        config,
        pvh,
        guest_cr0(pvh, fixed),
        guest_cr4(pvh, fixed),
        requested_cr0(pvh),
        requested_cr4(pvh),
        fixed,
    ) + execution_writes(config, pvh) + (if pvh {
        pat_writes(fixed.pat)
    } else {
        Seq::empty()
    }) + activity_writes()
}

/// Appends every guest-state field.
fn initialize_guest_state(out: &mut Vec<VmcsAction>, config: GuestConfig, fixed: FixedBits)
    ensures
        final(out)@ == old(out)@ + guest_state_writes(config, fixed),
{
    let pvh = config.boot_mode == GuestBootMode::LinuxPvh32;
    push_selector(out);
    push_limit(out);
    push_data_segment(out);
    push_system_segment(out, pvh);
    push_base(out);
    let wanted_cr0: u64 = if pvh { 0x11 } else { 0x8001_0033 };
    let wanted_cr4: u64 = if pvh { 0 } else { 0x20 };
    let mut cr0: u64 = adjusted_control_register(wanted_cr0, fixed.cr0_fixed0, fixed.cr0_fixed1);
    if pvh {
        cr0 = (cr0 & !CR0_PAGING) | 1;
    }
    let cr4: u64 = adjusted_control_register(wanted_cr4, fixed.cr4_fixed0, fixed.cr4_fixed1);
    push_control_register(out, config, pvh, cr0, cr4, wanted_cr0, wanted_cr4, fixed);
    push_execution(out, config, pvh);
    if pvh {
        push_pat(out, fixed.pat);
    }
    push_activity(out);
    assert(out@ =~= old(out)@ + guest_state_writes(config, fixed));
}

/// Every host-state field of a VMCS.
pub open spec fn host_state_writes(host: HostState) -> Seq<VmcsAction> {
    host_selector_writes(host) + host_register_writes(host)
}

/// Appends every host-state field.
fn initialize_host_state(out: &mut Vec<VmcsAction>, host: HostState)
    ensures
        final(out)@ == old(out)@ + host_state_writes(host),
{
    push_host_selector(out, host);
    push_host_register(out, host);
    assert(out@ =~= old(out)@ + host_state_writes(host));
}

/// All the steps of preparing a VMCS, and what comes of them.
pub open spec fn vmcs_steps(
    config: GuestConfig,
    caps: ControlCapabilities,
    fixed: FixedBits,
    host: HostState,
) -> (Seq<VmcsAction>, Result<(), Error>) {
    match controls_for(config.boot_mode, caps) {
        Err(e) => (Seq::empty(), Err(e)),
        Ok(c) => {
            let controls = control_writes(c);
            let bitmap = seq![
                VmcsAction::Write { field: MSR_BITMAP, value: config.msr_permission_map },
            ];
            let lists = seq![VmcsAction::StoreMsrLists { page: config.msr_state_page }];
            if !is_control_page(config.msr_permission_map) {
                (controls, Err(Error::InvalidPage))
            } else if !is_control_page(config.msr_state_page) {
                (controls + bitmap, Err(Error::InvalidPage))
            } else {
                (
                    controls + bitmap + lists + msr_list_writes(
                        config.msr_state_page,
                        (config.msr_state_page + 96) as u64,
                        config.nested_root,
                    ) + guest_state_writes(config, fixed) + host_state_writes(host),
                    Ok(()),
                )
            }
        },
    }
}

/// Plans how to prepare a VMCS for a guest.
pub fn initialize_vmcs(
    config: GuestConfig,
    caps: &ControlCapabilities,
    fixed: FixedBits,
    host: HostState,
) -> (r: VmcsProgram)
    ensures
        (r.actions@, r.result) == vmcs_steps(config, *caps, fixed, host),
{
    let mut actions: Vec<VmcsAction> = Vec::new();
    let controls = match choose_controls(config.boot_mode, caps) {
        Ok(controls) => controls,
        Err(e) => return VmcsProgram { actions, result: Err(e) },
    };
    push_control(&mut actions, controls);
    assert(actions@ =~= control_writes(controls));
    if validate_page(config.msr_permission_map).is_err() {
        return VmcsProgram { actions, result: Err(Error::InvalidPage) };
    }
    actions.push(VmcsAction::Write { field: MSR_BITMAP, value: config.msr_permission_map });
    if validate_page(config.msr_state_page).is_err() {
        assert(actions@ =~= vmcs_steps(config, *caps, fixed, host).0);
        return VmcsProgram { actions, result: Err(Error::InvalidPage) };
    }
    actions.push(VmcsAction::StoreMsrLists { page: config.msr_state_page });
    push_msr_list(
        &mut actions,
        config.msr_state_page,
        config.msr_state_page + 96,
        config.nested_root,
    );
    initialize_guest_state(&mut actions, config, fixed);
    initialize_host_state(&mut actions, host);
    assert(actions@ =~= vmcs_steps(config, *caps, fixed, host).0);
    VmcsProgram { actions, result: Ok(()) }
}

/// The MSRs that are switched with the guest: system-call and kernel-base MSRs.
pub const GUEST_MSR_LIST: [u32; 6] = [
    0xc000_0081,
    0xc000_0082,
    0xc000_0083,
    0xc000_0084,
    0xc000_0102,
    0xc000_0103,
];

/// The page of MSR lists: each entry is an index word and a value word; the
/// guest's values are zero and the host's follow.
pub open spec fn msr_list_words(host_values: Seq<u64>) -> Seq<u64> {
    Seq::new(
        512,
        |i: int|
            if i < 24 && i % 2 == 0 {
                GUEST_MSR_LIST@[i / 2 % 6] as u64
            } else if 12 <= i < 24 {
                host_values[(i - 12) / 2]
            } else {
                0
            },
    )
}

/// Builds the page of MSR lists from the host's current values.
pub fn initialize_guest_msr_lists(host_values: &[u64; 6]) -> (r: Vec<u64>)
    ensures
        r@ == msr_list_words(host_values@),
{
    let list = GUEST_MSR_LIST;
    let mut words: Vec<u64> = Vec::new();
    let mut i: usize = 0;
    while i < 512
        invariant
            i <= 512,
            words@.len() == i,
            list@ == GUEST_MSR_LIST@,
            forall|j: int| 0 <= j < i ==> #[trigger] words@[j] == msr_list_words(host_values@)[j],
        decreases 512 - i,
    {
        let word: u64 = if i < 24 && i % 2 == 0 {
            list[i / 2 % 6] as u64
        } else if i >= 12 && i < 24 {
            host_values[(i - 12) / 2]
        } else {
            0
        };
        words.push(word);
        i += 1;
    }
    assert(words@ =~= msr_list_words(host_values@));
    words
}

/// What can be said of a CPU before any VMX register is read.
pub fn check_enable(
    vmxon_phys: u64,
    vmcs_phys: u64,
    backend: Option<BackendKind>,
) -> (r: Result<(), Error>)
    ensures
        r == (if !is_control_page(vmxon_phys) || !is_control_page(vmcs_phys) {
            Err(Error::InvalidPage)
        } else if backend != Some(BackendKind::IntelVmx) {
            Err(Error::UnsupportedCpu)
        } else {
            Ok(())
        }),
{
    validate_page(vmxon_phys)?;
    validate_page(vmcs_phys)?;
    match backend {
        Some(BackendKind::IntelVmx) => Ok(()),
        _ => Err(Error::UnsupportedCpu),
    }
}

/// What the feature-control MSR has to become, if it has to change at all: an
/// unlocked one is set up and locked, a locked one must allow VMX.
pub fn feature_control_update(feature_control: u64) -> (r: Result<Option<u64>, Error>)
    ensures
        r == (if feature_control & FEATURE_CONTROL_LOCK == 0 {
            Ok(
                Some(
                    feature_control | (FEATURE_CONTROL_LOCK | FEATURE_CONTROL_VMX_OUTSIDE_SMX),
                ),
            )
        } else if feature_control & FEATURE_CONTROL_VMX_OUTSIDE_SMX == 0 {
            Err(Error::VirtualizationDisabled)
        } else {
            Ok(None)
        }),
{
    if feature_control & FEATURE_CONTROL_LOCK == 0 {
        Ok(Some(feature_control | (FEATURE_CONTROL_LOCK | FEATURE_CONTROL_VMX_OUTSIDE_SMX)))
    } else if feature_control & FEATURE_CONTROL_VMX_OUTSIDE_SMX == 0 {
        Err(Error::VirtualizationDisabled)
    } else {
        Ok(None)
    }
}

/// The revision that control regions carry, if both pages may be such regions.
pub fn control_region_revision(
    basic: u64,
    vmxon_phys: u64,
    vmcs_phys: u64,
) -> (r: Result<u32, Error>)
    ensures
        r == ({
            let region_size = (basic >> 32) & 0x1fff;
            if region_size == 0 || region_size > 4096 {
                Err(Error::ControlRegionTooLarge)
            } else if !is_control_region_address(basic, vmxon_phys) || !is_control_region_address(
                basic,
                vmcs_phys,
            ) {
                Err(Error::InvalidPage)
            } else {
                Ok(basic as u32 & 0x7fff_ffff)
            }
        }),
{
    let region_size: u64 = (basic >> 32) & 0x1fff;
    if region_size == 0 || region_size > 4096 {
        return Err(Error::ControlRegionTooLarge);
    }
    if !control_region_address_valid(basic, vmxon_phys) || !control_region_address_valid(
        basic,
        vmcs_phys,
    ) {
        return Err(Error::InvalidPage);
    }
    Ok(basic as u32 & 0x7fff_ffff)
}

/// How far enabling VMX came.
#[derive(Clone, Copy, Debug, PartialEq, Eq, Structural)]
pub enum EnableOutcome {
    /// VMXON failed.
    VmxonFailed,
    /// VMX operation is on, but the VMCS could not be loaded.
    VmcsFailed,
    /// The VMCS is loaded.
    Loaded,
}

/// What to undo before the failure is reported.
#[derive(Clone, Copy, Debug, PartialEq, Eq, Structural)]
pub struct EnableCleanup {
    pub leave_vmx: bool,
    pub clear_vmxe: bool,
}

/// The vCPU of a CPU that entered VMX operation, or what has to be undone.
pub fn finish_enable(
    outcome: EnableOutcome,
    revision_id: u32,
    vmcs_phys: u64,
) -> (r: Result<Vmx, (EnableCleanup, Error)>)
    ensures
        match outcome {
            EnableOutcome::Loaded => r matches Ok(vmx) && vmx == (Vmx {
                revision_id,
                vmcs_phys,
                active: true,
                owns_vmx_operation: true,
                run_context: empty_context(),
            }),
            _ => r matches Err((undo, e)) && e == Error::ControlInstructionFailed && undo.clear_vmxe
                && undo.leave_vmx == (outcome == EnableOutcome::VmcsFailed),
        },
{
    match outcome {
        EnableOutcome::Loaded => Ok(Vmx::enabled(revision_id, vmcs_phys)),
        EnableOutcome::VmcsFailed => Err(
            (EnableCleanup { leave_vmx: true, clear_vmxe: true }, Error::ControlInstructionFailed),
        ),
        EnableOutcome::VmxonFailed => Err(
            (EnableCleanup { leave_vmx: false, clear_vmxe: true }, Error::ControlInstructionFailed),
        ),
    }
}

/// A guest that writes back what it was given for a register is seen writing the same
/// value: the halves that an RDMSR returns are the halves that a WRMSR takes.
pub proof fn law_msr_value_survives_the_registers(
    before: Vmx,
    after: Vmx,
    value: u64,
    fields: ExitFields,
)
    requires
        after == (Vmx {
            run_context: VmxRunContext {
                rax: value as u32 as u64,
                rdx: (value >> 32) as u32 as u64,
                resume: 1,
                ..before.run_context
            },
            ..before
        }),
        fields.reason & 0xffff == WRMSR_EXIT_REASON,
    ensures
        exit_of(after.run_context, fields) matches Ok(exit) && exit.reason
            == VmExitReason::MsrWrite && exit.msr == before.run_context.rcx as u32
            && exit.msr_value == value,
{
    assert((value as u32 as u64) as u32 as u64 | (((value >> 32) as u32 as u64) as u32 as u64) << 32
        == value) by (bit_vector);
}

} // verus!
