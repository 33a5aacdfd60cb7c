//! mBoot: the decision logic of an x86_64 Type-1 hypervisor.
//!
//! Everything here works on plain values. The program around the library reads
//! and writes hardware registers, physical memory and firmware tables, and asks
//! the library what those values mean and what to do next.

pub mod abi;
pub mod arch;
pub mod bits;
pub mod boot_log;
pub mod boot_memory;
pub mod bundle;
pub mod bytes;
pub mod claim;
pub mod cpuid;
pub mod device;
pub mod display;
pub mod domain;
pub mod entropy;
pub mod event;
pub mod grant;
pub mod halt;
pub mod hypercall;
pub mod image;
pub mod interrupt;
pub mod iommu;
pub mod launch;
pub mod layout;
pub mod manifest;
pub mod memory;
pub mod msr;
pub mod network;
pub mod pci;
pub mod physical;
pub mod scheduler;
pub mod serial;
pub mod smp;
pub mod supervisor;
pub mod watchdog;

use vstd::prelude::*;

verus! {

/// Everything that can go wrong while mBoot prepares or runs a Domain.
#[derive(Clone, Copy, Debug, PartialEq, Eq, Structural)]
pub enum Error {
    UnsupportedCpu,
    VirtualizationDisabled,
    NestedPagingUnavailable,
    InvalidPage,
    InvalidState,
    ControlInstructionFailed,
    VmcsLoadFailed,
    VmcsWriteFailed(u64),
    ControlRegionTooLarge,
    GuestEntryFailed(u64),
    UnexpectedVmExit(u64),
    InvalidImage,
    ImageTooLarge,
    InvalidManifest,
    InvalidBundle,
    ManifestDigestMismatch,
    ImageDigestMismatch,
    UnsupportedDomainConfig,
    AddressSpaceIdUnavailable,
    InterruptVirtualizationUnavailable,
    DeviceQuarantineFailed,
    UnsupportedIommu,
    IommuInitializationFailed,
    IommuCommandTimeout,
}

/// The virtualization extension that the CPU offers.
#[derive(Clone, Copy, Debug, PartialEq, Eq, Structural)]
pub enum BackendKind {
    IntelVmx,
    AmdSvm,
}

/// The two pages that a CPU needs before it can run guests.
#[derive(Clone, Copy, Debug, PartialEq, Eq, Structural)]
pub struct VirtualizationResources {
    pub host_control_page: u64,
    pub vcpu_control_page: u64,
}

/// Why a guest stopped.
#[derive(Clone, Copy, Debug, PartialEq, Eq, Structural)]
pub enum VmExitReason {
    Halt,
    Hypercall,
    Preempted,
    InterruptWindow,
    MsrRead,
    MsrWrite,
    Cpuid,
    ControlRegisterWrite,
    NestedPageFault,
}

/// The four registers that CPUID returns.
#[derive(Clone, Copy, Debug, PartialEq, Eq, Structural)]
pub struct CpuidResult {
    pub eax: u32,
    pub ebx: u32,
    pub ecx: u32,
    pub edx: u32,
}

impl Default for CpuidResult {
    fn default() -> (r: Self)
        ensures
            r == (CpuidResult { eax: 0, ebx: 0, ecx: 0, edx: 0 }),
    {
        CpuidResult { eax: 0, ebx: 0, ecx: 0, edx: 0 }
    }
}

/// An intercepted exit, with what the guest asked for.
#[derive(Clone, Copy, Debug, PartialEq, Eq, Structural)]
pub struct VmExit {
    pub reason: VmExitReason,
    pub raw_reason: u64,
    pub hypercall_number: u64,
    pub arg0: u64,
    pub arg1: u64,
    pub arg2: u64,
    pub msr: u32,
    pub msr_value: u64,
    pub cpuid_leaf: u32,
    pub cpuid_subleaf: u32,
    pub fault_address: u64,
    pub fault_info: u64,
}

/// The mode in which a Domain's first vCPU starts.
#[derive(Clone, Copy, Debug, PartialEq, Eq, Structural)]
pub enum GuestBootMode {
    Long64,
    LinuxPvh32,
}

/// What a vCPU needs to start.
#[derive(Clone, Copy, Debug, PartialEq, Eq, Structural)]
pub struct GuestConfig {
    pub boot_mode: GuestBootMode,
    pub nested_root: u64,
    pub page_table_root: u64,
    pub entry: u64,
    pub stack: u64,
    pub boot_info: u64,
    pub msr_permission_map: u64,
    pub msr_state_page: u64,
}

} // verus!
