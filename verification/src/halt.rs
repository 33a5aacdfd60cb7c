//! What the machine shows when it stops for good.

use vstd::prelude::*;

use crate::{iommu, Error};

verus! {

/// What mBoot was doing when it could not go on.
#[derive(Clone, Copy, Debug, PartialEq, Eq, Structural)]
pub enum Stage {
    NestedPageTable,
    GuestPageTables,
    FirmwareFramebuffer,
    DomainImage,
    DomainBootModule,
    PciOwnershipPolicy,
    PciDmaQuarantine,
    IommuProtection,
    Virtualization,
    VcpuCreation,
    DomainSetup,
    DomainBootInfo,
    DomainStart,
    DomainHypercall,
    DomainStop,
    DomainCrashTransition,
    DomainExceptionInjection,
    DomainManagementNotification,
    EventChannelManifest,
    EventChannelRestartManifest,
    EventChannelReconnect,
    EventIrqReadiness,
    EventIrqInjection,
    InterruptWindowDisable,
    InterruptWindowEnable,
    VirtualApicTimer,
    VirtualApicAccept,
    VirtualApicRaise,
    PciIrqRouting,
    PciActivationState,
    PciDeviceCleanup,
    PciDmaRollback,
    PciMappingRollback,
    PciMappingRestore,
    PciReleaseState,
    VcpuEntry,
    VcpuReset,
    GrantTranslationFlush,
    GrantUnmap,
    GrantCleanup,
    GuestPageTableRestart,
    DomainImageRestart,
    DomainBootModuleRestart,
    DomainRestartBootInfo,
    DomainRestartTransition,
    DomainRestart,
}

impl Stage {
    /// The name that the log shows.
    pub fn name(self) -> (r: &'static str)
        ensures
            r@ == self.text(),
    {
        match self {
            Stage::NestedPageTable => "nested page table",
            Stage::GuestPageTables => "guest page tables",
            Stage::FirmwareFramebuffer => "firmware framebuffer",
            Stage::DomainImage => "Domain image",
            Stage::DomainBootModule => "Domain boot module",
            Stage::PciOwnershipPolicy => "PCI ownership policy",
            Stage::PciDmaQuarantine => "PCI DMA quarantine",
            Stage::IommuProtection => "IOMMU protection",
            Stage::Virtualization => "virtualization",
            Stage::VcpuCreation => "vCPU creation",
            Stage::DomainSetup => "Domain",
            Stage::DomainBootInfo => "Domain boot info",
            Stage::DomainStart => "Domain start",
            Stage::DomainHypercall => "Domain Hypercall",
            Stage::DomainStop => "Domain stop",
            Stage::DomainCrashTransition => "Domain crash transition",
            Stage::DomainExceptionInjection => "Domain exception injection",
            Stage::DomainManagementNotification => "Domain management notification",
            Stage::EventChannelManifest => "Event Channel manifest",
            Stage::EventChannelRestartManifest => "Event Channel restart manifest",
            Stage::EventChannelReconnect => "Event Channel reconnect",
            Stage::EventIrqReadiness => "Event IRQ readiness",
            Stage::EventIrqInjection => "Event IRQ injection",
            Stage::InterruptWindowDisable => "Interrupt window disable",
            Stage::InterruptWindowEnable => "Interrupt window enable",
            Stage::VirtualApicTimer => "Virtual APIC timer",
            Stage::VirtualApicAccept => "Virtual APIC accept",
            Stage::VirtualApicRaise => "Virtual APIC raise",
            Stage::PciIrqRouting => "PCI IRQ routing",
            Stage::PciActivationState => "PCI activation state",
            Stage::PciDeviceCleanup => "PCI device cleanup",
            Stage::PciDmaRollback => "PCI DMA rollback",
            Stage::PciMappingRollback => "PCI mapping rollback",
            Stage::PciMappingRestore => "PCI mapping restore",
            Stage::PciReleaseState => "PCI release state",
            Stage::VcpuEntry => "vCPU entry",
            Stage::VcpuReset => "vCPU reset",
            Stage::GrantTranslationFlush => "Grant translation flush",
            Stage::GrantUnmap => "Grant unmap",
            Stage::GrantCleanup => "Grant cleanup",
            Stage::GuestPageTableRestart => "guest page table restart",
            Stage::DomainImageRestart => "Domain image restart",
            Stage::DomainBootModuleRestart => "Domain boot module restart",
            Stage::DomainRestartBootInfo => "Domain restart boot info",
            Stage::DomainRestartTransition => "Domain restart transition",
            Stage::DomainRestart => "Domain restart",
        }
    }

    /// The name of the stage.
    pub open spec fn text(self) -> Seq<char> {
        match self {
            Stage::NestedPageTable => "nested page table"@,
            Stage::GuestPageTables => "guest page tables"@,
            Stage::FirmwareFramebuffer => "firmware framebuffer"@,
            Stage::DomainImage => "Domain image"@,
            Stage::DomainBootModule => "Domain boot module"@,
            Stage::PciOwnershipPolicy => "PCI ownership policy"@,
            Stage::PciDmaQuarantine => "PCI DMA quarantine"@,
            Stage::IommuProtection => "IOMMU protection"@,
            Stage::Virtualization => "virtualization"@,
            Stage::VcpuCreation => "vCPU creation"@,
            Stage::DomainSetup => "Domain"@,
            Stage::DomainBootInfo => "Domain boot info"@,
            Stage::DomainStart => "Domain start"@,
            Stage::DomainHypercall => "Domain Hypercall"@,
            Stage::DomainStop => "Domain stop"@,
            Stage::DomainCrashTransition => "Domain crash transition"@,
            Stage::DomainExceptionInjection => "Domain exception injection"@,
            Stage::DomainManagementNotification => "Domain management notification"@,
            Stage::EventChannelManifest => "Event Channel manifest"@,
            Stage::EventChannelRestartManifest => "Event Channel restart manifest"@,
            Stage::EventChannelReconnect => "Event Channel reconnect"@,
            Stage::EventIrqReadiness => "Event IRQ readiness"@,
            Stage::EventIrqInjection => "Event IRQ injection"@,
            Stage::InterruptWindowDisable => "Interrupt window disable"@,
            Stage::InterruptWindowEnable => "Interrupt window enable"@,
            Stage::VirtualApicTimer => "Virtual APIC timer"@,
            Stage::VirtualApicAccept => "Virtual APIC accept"@,
            Stage::VirtualApicRaise => "Virtual APIC raise"@,
            Stage::PciIrqRouting => "PCI IRQ routing"@,
            Stage::PciActivationState => "PCI activation state"@,
            Stage::PciDeviceCleanup => "PCI device cleanup"@,
            Stage::PciDmaRollback => "PCI DMA rollback"@,
            Stage::PciMappingRollback => "PCI mapping rollback"@,
            Stage::PciMappingRestore => "PCI mapping restore"@,
            Stage::PciReleaseState => "PCI release state"@,
            Stage::VcpuEntry => "vCPU entry"@,
            Stage::VcpuReset => "vCPU reset"@,
            Stage::GrantTranslationFlush => "Grant translation flush"@,
            Stage::GrantUnmap => "Grant unmap"@,
            Stage::GrantCleanup => "Grant cleanup"@,
            Stage::GuestPageTableRestart => "guest page table restart"@,
            Stage::DomainImageRestart => "Domain image restart"@,
            Stage::DomainBootModuleRestart => "Domain boot module restart"@,
            Stage::DomainRestartBootInfo => "Domain restart boot info"@,
            Stage::DomainRestartTransition => "Domain restart transition"@,
            Stage::DomainRestart => "Domain restart"@,
        }
    }
}

/// The code of a stage, and of the error where the stage tells errors apart.
pub open spec fn error_code(stage: Stage, error: Error) -> u8 {
    match stage {
        Stage::NestedPageTable => 20,
        Stage::GuestPageTables => 21,
        Stage::DomainImage => 22,
        Stage::PciOwnershipPolicy => 23,
        Stage::Virtualization => match error {
            Error::VirtualizationDisabled => 31,
            Error::NestedPagingUnavailable => 32,
            Error::InvalidPage => 33,
            Error::ControlInstructionFailed => 34,
            Error::ControlRegionTooLarge => 35,
            _ => 30,
        },
        Stage::VcpuCreation => 36,
        Stage::DomainSetup => 40,
        Stage::DomainBootInfo => 41,
        Stage::DomainStart => 42,
        Stage::VcpuEntry => match error {
            Error::GuestEntryFailed(_) => 51,
            Error::VmcsLoadFailed => 52,
            _ => 50,
        },
        Stage::DomainHypercall => 53,
        Stage::DomainStop => 54,
        Stage::EventChannelManifest => 55,
        Stage::GrantTranslationFlush => 56,
        Stage::GrantUnmap => 57,
        Stage::GrantCleanup => 58,
        Stage::PciDmaQuarantine => 17,
        Stage::IommuProtection => 19,
        _ => 10,
    }
}

/// The code that the screen shows for a stage that failed.
pub fn halt_error_code(stage: Stage, error: Error) -> (r: u8)
    ensures
        r == error_code(stage, error),
{
    match stage {
        Stage::NestedPageTable => 20,
        Stage::GuestPageTables => 21,
        Stage::DomainImage => 22,
        Stage::PciOwnershipPolicy => 23,
        Stage::Virtualization => match error {
            Error::VirtualizationDisabled => 31,
            Error::NestedPagingUnavailable => 32,
            Error::InvalidPage => 33,
            Error::ControlInstructionFailed => 34,
            Error::ControlRegionTooLarge => 35,
            _ => 30,
        },
        Stage::VcpuCreation => 36,
        Stage::DomainSetup => 40,
        Stage::DomainBootInfo => 41,
        Stage::DomainStart => 42,
        Stage::VcpuEntry => match error {
            Error::GuestEntryFailed(_) => 51,
            Error::VmcsLoadFailed => 52,
            _ => 50,
        },
        Stage::DomainHypercall => 53,
        Stage::DomainStop => 54,
        Stage::EventChannelManifest => 55,
        Stage::GrantTranslationFlush => 56,
        Stage::GrantUnmap => 57,
        Stage::GrantCleanup => 58,
        Stage::PciDmaQuarantine => 17,
        Stage::IommuProtection => 19,
        _ => 10,
    }
}

/// What the screen shows for an error.
#[derive(Clone, Copy, Debug, PartialEq, Eq, Structural)]
pub enum HaltReport {
    /// The field that the virtual machine did not accept.
    VmcsField(u64),
    /// Why the guest could not be entered.
    GuestEntry(u64),
    /// A code.
    Code(u8),
}

/// Chooses the screen for an error.
pub fn halt_with_error(stage: Stage, error: Error) -> (r: HaltReport)
    ensures
        r == (match error {
            Error::VmcsWriteFailed(field) => HaltReport::VmcsField(field),
            Error::GuestEntryFailed(reason) => HaltReport::GuestEntry(reason),
            _ => HaltReport::Code(error_code(stage, error)),
        }),
{
    match error {
        Error::VmcsWriteFailed(field) => HaltReport::VmcsField(field),
        Error::GuestEntryFailed(reason) => HaltReport::GuestEntry(reason),
        _ => HaltReport::Code(halt_error_code(stage, error)),
    }
}

/// The error that a failed remapping unit stops the machine with.
pub fn iommu_error(error: iommu::Error) -> (r: Error)
    ensures
        r == (match error {
            iommu::Error::UnsupportedHardware => Error::UnsupportedIommu,
            iommu::Error::CommandTimeout => Error::IommuCommandTimeout,
            _ => Error::IommuInitializationFailed,
        }),
{
    match error {
        iommu::Error::UnsupportedHardware => Error::UnsupportedIommu,
        iommu::Error::CommandTimeout => Error::IommuCommandTimeout,
        _ => Error::IommuInitializationFailed,
    }
}

/// The codes that the screen shows: one for each stage, in tens by what was being done,
/// where virtualization and the entry into a guest also tell errors apart; every other
/// stage shows ten.
pub proof fn law_codes_name_the_stage(error: Error)
    ensures
        error_code(Stage::PciDmaQuarantine, error) == 17,
        error_code(Stage::IommuProtection, error) == 19,
        error_code(Stage::NestedPageTable, error) == 20,
        error_code(Stage::GuestPageTables, error) == 21,
        error_code(Stage::DomainImage, error) == 22,
        error_code(Stage::PciOwnershipPolicy, error) == 23,
        error_code(Stage::VcpuCreation, error) == 36,
        error_code(Stage::DomainSetup, error) == 40,
        error_code(Stage::DomainBootInfo, error) == 41,
        error_code(Stage::DomainStart, error) == 42,
        error_code(Stage::DomainHypercall, error) == 53,
        error_code(Stage::DomainStop, error) == 54,
        error_code(Stage::EventChannelManifest, error) == 55,
        error_code(Stage::GrantTranslationFlush, error) == 56,
        error_code(Stage::GrantUnmap, error) == 57,
        error_code(Stage::GrantCleanup, error) == 58,
        error_code(Stage::Virtualization, Error::VirtualizationDisabled) == 31,
        error_code(Stage::Virtualization, Error::NestedPagingUnavailable) == 32,
        error_code(Stage::Virtualization, Error::InvalidPage) == 33,
        error_code(Stage::Virtualization, Error::ControlInstructionFailed) == 34,
        error_code(Stage::Virtualization, Error::ControlRegionTooLarge) == 35,
        30 <= error_code(Stage::Virtualization, error) <= 35,
        50 <= error_code(Stage::VcpuEntry, error) <= 52,
        error is GuestEntryFailed <==> error_code(Stage::VcpuEntry, error) == 51,
        error == Error::VmcsLoadFailed <==> error_code(Stage::VcpuEntry, error) == 52,
        error_code(Stage::FirmwareFramebuffer, error) == 10,
        error_code(Stage::DomainBootModule, error) == 10,
        error_code(Stage::DomainRestart, error) == 10,
{
}

/// A stage with a code of its own shares it with no other stage, whatever the errors.
pub proof fn law_codes_tell_stages_apart(a: Stage, b: Stage, first: Error, second: Error)
    requires
        error_code(a, first) == error_code(b, second),
        error_code(a, first) != 10,
    ensures
        a == b,
{
}

} // verus!
