//! Values that Domains and mBoot exchange through hypercalls.
//!
//! The numbers and the layouts of records are chosen here. No published interface fixes
//! them, so a guest has to be built against this module.

use vstd::prelude::*;

verus! {

/// A Domain with this capability may list PCI functions.
pub const DOMAIN_CAPABILITY_DEVICE_QUERY: u64 = 1;
/// A Domain with this capability may claim the PCI functions its policy names.
pub const DOMAIN_CAPABILITY_DEVICE_CLAIM: u64 = 2;

/// The function is isolated and belongs to nobody.
pub const PCI_DEVICE_STATE_QUARANTINED: u8 = 1;
/// The firmware still scans out through the function.
pub const PCI_DEVICE_STATE_FIRMWARE_DEFERRED: u8 = 2;
/// A Domain owns the function, which cannot yet start DMA.
pub const PCI_DEVICE_STATE_CLAIMED_DISABLED: u8 = 3;
/// A Domain owns the function and drives it.
pub const PCI_DEVICE_STATE_ACTIVE: u8 = 4;

pub const PCI_DEVICE_FLAG_CLAIMABLE: u32 = 1;
pub const PCI_DEVICE_FLAG_EPHEMERAL: u32 = 2;
pub const PCI_DEVICE_FLAG_READ_ONLY: u32 = 4;
pub const PCI_DEVICE_FLAG_PARTITIONED: u32 = 8;

/// What a Domain sees of one PCI function.
#[derive(Clone, Copy, Debug, PartialEq, Eq)]
pub struct PciDeviceInfo {
    pub requester: u16,
    pub class: u8,
    pub subclass: u8,
    pub state: u8,
    pub owner_domain: u32,
    pub flags: u32,
    pub storage_disk_guid: [u8; 16],
    pub storage_partition_type_guid: [u8; 16],
    pub storage_partition_guid: [u8; 16],
}

/// A function has at most this many interrupts: configuration and queue.
pub const PCI_DEVICE_INTERRUPT_COUNT: usize = 2;
pub const PCI_DEVICE_INTERRUPT_CONFIG: usize = 0;
pub const PCI_DEVICE_INTERRUPT_QUEUE: usize = 1;

pub const PCI_RESOURCE_KIND_MMIO: u8 = 1;
pub const PCI_RESOURCE_FLAG_READABLE: u32 = 1;
pub const PCI_RESOURCE_FLAG_WRITABLE: u32 = 2;

/// What a Domain learns of one BAR of a function that it owns.
#[derive(Clone, Copy, Debug, PartialEq, Eq, Structural)]
pub struct PciDeviceResource {
    pub requester: u16,
    pub bar_index: u8,
    pub kind: u8,
    pub flags: u32,
    pub guest_address: u64,
    pub length: u64,
}

/// No device appears in a Domain above this guest physical address.
pub const DOMAIN_DEVICE_ADDRESS_LIMIT: u64 = 0x100_0000_0000;

pub const DOMAIN_ROLE_SYSTEM: u32 = 1;
pub const DOMAIN_ROLE_HARDWARE: u32 = 2;
pub const DOMAIN_ROLE_APPLICATION: u32 = 3;

pub const HYPERVISOR_BACKEND_INTEL_VMX: u32 = 1;
pub const HYPERVISOR_BACKEND_AMD_SVM: u32 = 2;

/// What a hypercall returns.
pub const HYPERCALL_SUCCESS: u64 = 0;
pub const HYPERCALL_INVALID_ARGUMENT: u64 = 0xffff_ffff_ffff_ffff;
pub const HYPERCALL_UNSUPPORTED: u64 = 0xffff_ffff_ffff_fffe;
pub const EVENT_CHANNEL_NO_EVENT: u64 = 0xffff_ffff_ffff_fffd;

/// The interrupt that announces an event.
pub const EVENT_CHANNEL_VECTOR: u8 = 0x40;
/// The interrupt that tells the System Domain of a crash.
pub const DOMAIN_MANAGEMENT_VECTOR: u8 = 0x41;

/// The target of a grant may write.
pub const GRANT_FLAG_WRITABLE: u64 = 1;

pub const DOMAIN_CRASH_STATUS_CRASHED: u32 = 1;
pub const DOMAIN_CRASH_STATUS_RESTARTED: u32 = 2;

/// The bytes that each record takes in guest memory.
pub const PCI_DEVICE_INFO_SIZE: u64 = 64;
pub const PCI_DEVICE_RESOURCE_SIZE: u64 = 24;
pub const DOMAIN_CRASH_INFO_SIZE: u64 = 40;
pub const DOMAIN_BOOT_INFO_SIZE: u64 = 160;

/// What the System Domain learns of a crash.
#[derive(Clone, Copy, Debug, PartialEq, Eq, Structural)]
pub struct DomainCrashInfo {
    pub domain_id: u32,
    pub status: u32,
    pub restart_count: u32,
    pub raw_reason: u64,
    pub fault_address: u64,
    pub fault_info: u64,
}

/// A framebuffer as a guest sees it.
#[derive(Clone, Copy, Debug, PartialEq, Eq, Structural)]
pub struct BootFramebuffer {
    pub address: u64,
    pub size: u64,
    pub width: u32,
    pub height: u32,
    pub stride: u32,
    pub format: u32,
}

/// What a native kernel finds when it starts.
#[derive(Clone, Copy, Debug, PartialEq, Eq)]
pub struct DomainBootInfo {
    pub domain_id: u32,
    pub vcpu_id: u32,
    pub backend: u32,
    pub role: u32,
    pub memory_size: u64,
    pub boot_module_start: u64,
    pub boot_module_size: u64,
    pub grant_window_start: u64,
    pub grant_window_size: u64,
    pub device_window_start: u64,
    pub device_window_size: u64,
    pub restart_count: u32,
    pub capabilities: u64,
    pub entropy_seed: [u8; 32],
    pub framebuffer: Option<BootFramebuffer>,
}

/// What a guest asks of mBoot.
#[derive(Clone, Copy, Debug, PartialEq, Eq, Structural)]
pub enum Hypercall {
    ConsoleWrite,
    Yield,
    Shutdown,
    Ready,
    Wait,
    EventSend,
    EventPoll,
    EventWait,
    EventIrqEnable,
    IrqEoi,
    IrqMask,
    IrqSetTpr,
    GrantCreate,
    GrantMap,
    GrantUnmap,
    GrantRevoke,
    GrantQuery,
    DeviceQuery,
    DeviceClaim,
    DeviceRelease,
    DeviceConfigRead,
    DeviceResourceQuery,
    DeviceActivate,
    DomainCrashQuery,
}

pub open spec fn hypercall_of(number: u64) -> Option<Hypercall> {
    match number {
        1 => Some(Hypercall::ConsoleWrite),
        2 => Some(Hypercall::Yield),
        3 => Some(Hypercall::Shutdown),
        4 => Some(Hypercall::Ready),
        5 => Some(Hypercall::Wait),
        6 => Some(Hypercall::EventSend),
        7 => Some(Hypercall::EventPoll),
        8 => Some(Hypercall::EventWait),
        9 => Some(Hypercall::EventIrqEnable),
        10 => Some(Hypercall::IrqEoi),
        11 => Some(Hypercall::IrqMask),
        12 => Some(Hypercall::IrqSetTpr),
        13 => Some(Hypercall::GrantCreate),
        14 => Some(Hypercall::GrantMap),
        15 => Some(Hypercall::GrantUnmap),
        16 => Some(Hypercall::GrantRevoke),
        17 => Some(Hypercall::GrantQuery),
        18 => Some(Hypercall::DeviceQuery),
        19 => Some(Hypercall::DeviceClaim),
        20 => Some(Hypercall::DeviceRelease),
        21 => Some(Hypercall::DeviceConfigRead),
        22 => Some(Hypercall::DeviceResourceQuery),
        23 => Some(Hypercall::DeviceActivate),
        24 => Some(Hypercall::DomainCrashQuery),
        _ => None,
    }
}

impl Hypercall {
    /// The hypercall of a number, if there is one.
    pub fn from_number(number: u64) -> (r: Option<Self>)
        ensures
            r == hypercall_of(number),
    {
        match number {
            1 => Some(Hypercall::ConsoleWrite),
            2 => Some(Hypercall::Yield),
            3 => Some(Hypercall::Shutdown),
            4 => Some(Hypercall::Ready),
            5 => Some(Hypercall::Wait),
            6 => Some(Hypercall::EventSend),
            7 => Some(Hypercall::EventPoll),
            8 => Some(Hypercall::EventWait),
            9 => Some(Hypercall::EventIrqEnable),
            10 => Some(Hypercall::IrqEoi),
            11 => Some(Hypercall::IrqMask),
            12 => Some(Hypercall::IrqSetTpr),
            13 => Some(Hypercall::GrantCreate),
            14 => Some(Hypercall::GrantMap),
            15 => Some(Hypercall::GrantUnmap),
            16 => Some(Hypercall::GrantRevoke),
            17 => Some(Hypercall::GrantQuery),
            18 => Some(Hypercall::DeviceQuery),
            19 => Some(Hypercall::DeviceClaim),
            20 => Some(Hypercall::DeviceRelease),
            21 => Some(Hypercall::DeviceConfigRead),
            22 => Some(Hypercall::DeviceResourceQuery),
            23 => Some(Hypercall::DeviceActivate),
            24 => Some(Hypercall::DomainCrashQuery),
            _ => None,
        }
    }
}

/// Every hypercall has one number, from 1 on in the order of the interface, and the
/// numbers that are left name none.
pub proof fn law_hypercalls_are_numbered(number: u64)
    ensures
        hypercall_of(number) is Some <==> 1 <= number <= 24,
        hypercall_of(number) matches Some(h) ==> number == (match h {
            Hypercall::ConsoleWrite => 1int,
            Hypercall::Yield => 2,
            Hypercall::Shutdown => 3,
            Hypercall::Ready => 4,
            Hypercall::Wait => 5,
            Hypercall::EventSend => 6,
            Hypercall::EventPoll => 7,
            Hypercall::EventWait => 8,
            Hypercall::EventIrqEnable => 9,
            Hypercall::IrqEoi => 10,
            Hypercall::IrqMask => 11,
            Hypercall::IrqSetTpr => 12,
            Hypercall::GrantCreate => 13,
            Hypercall::GrantMap => 14,
            Hypercall::GrantUnmap => 15,
            Hypercall::GrantRevoke => 16,
            Hypercall::GrantQuery => 17,
            Hypercall::DeviceQuery => 18,
            Hypercall::DeviceClaim => 19,
            Hypercall::DeviceRelease => 20,
            Hypercall::DeviceConfigRead => 21,
            Hypercall::DeviceResourceQuery => 22,
            Hypercall::DeviceActivate => 23,
            Hypercall::DomainCrashQuery => 24,
        }),
{
}

} // verus!
