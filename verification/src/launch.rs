//! The decisions between power-on and the first entry into a Domain.

use vstd::prelude::*;

use crate::bytes::spliced;
use crate::halt::Stage;
use crate::image::{
    align_page, elf_end, elf_outcome, lemma_loaded_length, load_boot_module, load_elf,
    load_linux_pvh, pvh_outcome, PVH_START_INFO_GPA,
};
use crate::interrupt::{is_idle, VirtualLocalApic};
use crate::iommu::{is_covered, IommuKind, IommuTopology, TopologyView};
use crate::layout::{
    device_window, device_window_start, domain_stack_bottom, guest_pages, is_supported_size,
    DEVICE_WINDOW_BYTES, DOMAIN_STACK_BYTES, GRANT_WINDOW_BYTES,
};
use crate::manifest::{
    ManifestDevice, ManifestDeviceKind, ManifestDomain, ManifestDomainRole, ManifestImageFormat,
    AUTO_REQUESTER, DEVICE_FLAG_REQUIRED, DOMAIN_FLAG_AUTO_START,
};
use crate::memory::{has_guest_tables, slot, NestedPageResources, NestedPageTable};
use crate::pci::PciFunction;
use crate::pci::quarantine::QuarantineReport;
use crate::physical::{cleared, PhysicalMemory};
use crate::{BackendKind, Error};

verus! {

/// Why the machine was not started.
#[derive(Clone, Copy, Debug, PartialEq, Eq, Structural)]
pub enum BootFailure {
    NoVirtualization,
    ManifestMissing,
    ManifestInvalid,
    AddressSpaces,
    InvalidEntry,
    UnsupportedDomain,
    ImageMissing,
    ImageDigest,
    SystemDomains,
    HostPage,
    VcpuPage,
    NestedPages,
    MsrPages,
    IommuDescription,
    IommuMismatch,
    IommuMissing,
    IommuTables,
    NetworkBundle,
    Entropy,
}

impl BootFailure {
    pub open spec fn number(self) -> u8 {
        match self {
            BootFailure::NoVirtualization => 1,
            BootFailure::ManifestMissing => 2,
            BootFailure::ManifestInvalid => 3,
            BootFailure::AddressSpaces => 4,
            BootFailure::InvalidEntry => 5,
            BootFailure::UnsupportedDomain => 6,
            BootFailure::ImageMissing => 7,
            BootFailure::ImageDigest => 8,
            BootFailure::SystemDomains => 9,
            BootFailure::HostPage => 11,
            BootFailure::VcpuPage => 12,
            BootFailure::NestedPages => 13,
            BootFailure::MsrPages => 14,
            BootFailure::IommuDescription => 15,
            BootFailure::IommuMismatch => 16,
            BootFailure::IommuMissing => 17,
            BootFailure::IommuTables => 18,
            BootFailure::NetworkBundle => 60,
            BootFailure::Entropy => 61,
        }
    }

    /// The code that the screen shows.
    pub fn code(self) -> (r: u8)
        ensures
            r == self.number(),
    {
        match self {
            BootFailure::NoVirtualization => 1,
            BootFailure::ManifestMissing => 2,
            BootFailure::ManifestInvalid => 3,
            BootFailure::AddressSpaces => 4,
            BootFailure::InvalidEntry => 5,
            BootFailure::UnsupportedDomain => 6,
            BootFailure::ImageMissing => 7,
            BootFailure::ImageDigest => 8,
            BootFailure::SystemDomains => 9,
            BootFailure::HostPage => 11,
            BootFailure::VcpuPage => 12,
            BootFailure::NestedPages => 13,
            BootFailure::MsrPages => 14,
            BootFailure::IommuDescription => 15,
            BootFailure::IommuMismatch => 16,
            BootFailure::IommuMissing => 17,
            BootFailure::IommuTables => 18,
            BootFailure::NetworkBundle => 60,
            BootFailure::Entropy => 61,
        }
    }
}

pub open spec fn iommu_for(backend: BackendKind) -> IommuKind {
    match backend {
        BackendKind::IntelVmx => IommuKind::IntelVtd,
        BackendKind::AmdSvm => IommuKind::AmdVi,
    }
}

/// The remapping units that the firmware describes must be of the processor's make.
pub fn check_iommu_kind(kind: IommuKind, backend: BackendKind) -> (r: Result<(), BootFailure>)
    ensures
        r == (if kind == iommu_for(backend) {
            Ok::<(), BootFailure>(())
        } else {
            Err(BootFailure::IommuMismatch)
        }),
{
    let expected = match backend {
        BackendKind::IntelVmx => IommuKind::IntelVtd,
        BackendKind::AmdSvm => IommuKind::AmdVi,
    };
    if kind == expected {
        Ok(())
    } else {
        Err(BootFailure::IommuMismatch)
    }
}

/// On an AMD processor each Domain needs an address space number of its own, and
/// the host has one.
pub fn check_address_spaces(
    backend: BackendKind,
    domain_count: usize,
    address_space_ids: u32,
) -> (r: Result<(), BootFailure>)
    ensures
        r == (if backend == BackendKind::AmdSvm && domain_count >= address_space_ids {
            Err(BootFailure::AddressSpaces)
        } else {
            Ok::<(), BootFailure>(())
        }),
{
    if backend == BackendKind::AmdSvm && domain_count as u64 >= address_space_ids as u64 {
        Err(BootFailure::AddressSpaces)
    } else {
        Ok(())
    }
}

/// What comes of a Domain that is to be started.
pub open spec fn domain_verdict(config: ManifestDomain) -> Result<usize, BootFailure> {
    if config.flags & DOMAIN_FLAG_AUTO_START != 0 && config.vcpu_count == 1 && is_supported_size(
        config.memory_size as int / 4096,
    ) {
        Ok((config.memory_size / 4096) as usize)
    } else {
        Err(BootFailure::UnsupportedDomain)
    }
}

/// What the launcher can start: Domains that start by themselves, with one virtual
/// CPU and memory of a size between the limits. Gives the number of pages.
pub fn check_domain(config: &ManifestDomain) -> (r: Result<usize, BootFailure>)
    ensures
        r == domain_verdict(*config),
{
    if !config.auto_starts() || config.vcpu_count != 1 {
        return Err(BootFailure::UnsupportedDomain);
    }
    match guest_pages(config.memory_size) {
        Some(pages) => Ok(pages),
        None => Err(BootFailure::UnsupportedDomain),
    }
}

/// How many of the first `n` Domains are System Domains.
pub open spec fn system_domains(roles: Seq<ManifestDomainRole>, n: int) -> int
    decreases n,
{
    if n <= 0 {
        0
    } else if roles[n - 1] == ManifestDomainRole::System {
        system_domains(roles, n - 1) + 1
    } else {
        system_domains(roles, n - 1)
    }
}

/// There must be exactly one System Domain.
pub fn check_system_domains(roles: &Vec<ManifestDomainRole>) -> (r: Result<(), BootFailure>)
    ensures
        r == (if system_domains(roles@, roles@.len() as int) == 1 {
            Ok::<(), BootFailure>(())
        } else {
            Err(BootFailure::SystemDomains)
        }),
{
    let mut count: usize = 0;
    let mut i: usize = 0;
    while i < roles.len()
        invariant
            i <= roles.len(),
            count <= i,
            count == system_domains(roles@, i as int),
        decreases roles.len() - i,
    {
        if roles[i] == ManifestDomainRole::System {
            count += 1;
        }
        i += 1;
    }
    if count == 1 {
        Ok(())
    } else {
        Err(BootFailure::SystemDomains)
    }
}

/// A policy that can go without its device where the firmware's framebuffer stands
/// in for a display.
pub open spec fn can_fall_back(policy: ManifestDevice) -> bool {
    policy.requester == AUTO_REQUESTER && (!policy.has_flag(DEVICE_FLAG_REQUIRED) || policy.kind
        == ManifestDeviceKind::Display)
}

/// What becomes of the device policies.
pub open spec fn policies_dropped(
    policies: Seq<ManifestDevice>,
    has_iommu: bool,
    has_framebuffer: bool,
) -> Result<bool, BootFailure> {
    if policies.len() == 0 || has_iommu {
        Ok(false)
    } else if has_framebuffer && forall|i: int|
        0 <= i < policies.len() ==> can_fall_back(#[trigger] policies[i]) {
        Ok(true)
    } else {
        Err(BootFailure::IommuMissing)
    }
}

/// Whether the device policies are dropped. Without remapping units no device can be
/// handed out; that is tolerable where the firmware's framebuffer stands in for the
/// display and no other device is required.
pub fn drops_device_policies(
    policies: &Vec<ManifestDevice>,
    has_iommu: bool,
    has_framebuffer: bool,
) -> (r: Result<bool, BootFailure>)
    ensures
        r == policies_dropped(policies@, has_iommu, has_framebuffer),
{
    if policies.len() == 0 || has_iommu {
        return Ok(false);
    }
    if !has_framebuffer {
        return Err(BootFailure::IommuMissing);
    }
    let mut i: usize = 0;
    while i < policies.len()
        invariant
            i <= policies.len(),
            !has_iommu,
            has_framebuffer,
            policies@.len() > 0,
            forall|j: int| 0 <= j < i ==> can_fall_back(#[trigger] policies@[j]),
        decreases policies.len() - i,
    {
        let policy = policies[i];
        if policy.requester != AUTO_REQUESTER || policy.is_required() && policy.kind
            != ManifestDeviceKind::Display {
            assert(!can_fall_back(policies@[i as int]));
            return Err(BootFailure::IommuMissing);
        }
        i += 1;
    }
    Ok(true)
}

/// The firmware keeps a DMA range for the requester.
pub open spec fn is_reserved(t: TopologyView, requester: u16) -> bool {
    exists|i: int|
        0 <= i < t.reserved.len() && (#[trigger] t.reserved[i]).segment == 0
            && t.reserved[i].requester == requester
}

fn has_reserved_mapping(topology: &IommuTopology, requester: u16) -> (r: bool)
    ensures
        r == is_reserved(topology@, requester),
{
    let mappings = topology.reserved_mappings();
    let mut i: usize = 0;
    while i < mappings.len()
        invariant
            i <= mappings.len(),
            mappings@ == topology@.reserved,
            forall|j: int|
                0 <= j < i ==> !((#[trigger] topology@.reserved[j]).segment == 0
                    && topology@.reserved[j].requester == requester),
        decreases mappings.len() - i,
    {
        if mappings[i].segment == 0 && mappings[i].requester == requester {
            assert(topology@.reserved[i as int].segment == 0);
            return true;
        }
        i += 1;
    }
    false
}

/// What comes of the attempt to stop every device from DMA.
#[derive(Clone, Copy, Debug, PartialEq, Eq, Structural)]
pub enum QuarantineVerdict {
    /// No device is left that could.
    Quiet,
    /// Those that are left may only use what the firmware keeps for them.
    Reserved,
    /// A device is left that must not be.
    Refused { first: Option<u16> },
}

/// Every device that could not be stopped is known and has a range of its own.
pub open spec fn all_reserved(report: QuarantineReport, topology: Option<TopologyView>) -> bool {
    &&& report.active_requesters@.len() as u32 == report.bus_masters_active
    &&& topology matches Some(t)
    &&& forall|i: int|
        0 <= i < report.active_requesters@.len() ==> is_reserved(
            t,
            #[trigger] report.active_requesters@[i],
        )
}

pub open spec fn topology_view(topology: Option<&IommuTopology>) -> Option<TopologyView> {
    match topology {
        Some(t) => Some(t@),
        None => None,
    }
}

/// What comes of a quarantine that left this.
pub open spec fn quarantine_verdict(
    report: QuarantineReport,
    topology: Option<TopologyView>,
) -> QuarantineVerdict {
    if report.bus_masters_active == 0 {
        QuarantineVerdict::Quiet
    } else if all_reserved(report, topology) {
        QuarantineVerdict::Reserved
    } else {
        QuarantineVerdict::Refused { first: report.first_active_requester }
    }
}

/// Judges what the quarantine has left.
pub fn check_quarantine(
    report: &QuarantineReport,
    topology: Option<&IommuTopology>,
) -> (r: QuarantineVerdict)
    ensures
        r == quarantine_verdict(*report, topology_view(topology)),
{
    if report.bus_masters_active == 0 {
        return QuarantineVerdict::Quiet;
    }
    let refused = QuarantineVerdict::Refused { first: report.first_active_requester };
    if !report.recorded_every_active_requester() {
        return refused;
    }
    match topology {
        None => refused,
        Some(known) => {
            let mut i: usize = 0;
            while i < report.active_requesters.len()
                invariant
                    i <= report.active_requesters.len(),
                    topology == Some(known),
                    report.bus_masters_active != 0,
                    refused == (QuarantineVerdict::Refused {
                        first: report.first_active_requester,
                    }),
                    report.active_requesters@.len() as u32 == report.bus_masters_active,
                    forall|j: int|
                        0 <= j < i ==> is_reserved(
                            known@,
                            #[trigger] report.active_requesters@[j],
                        ),
                decreases report.active_requesters.len() - i,
            {
                if !has_reserved_mapping(known, report.active_requesters[i]) {
                    assert(!is_reserved(known@, report.active_requesters@[i as int]));
                    return refused;
                }
                i += 1;
            }
            QuarantineVerdict::Reserved
        },
    }
}

/// The display that is left to the firmware, if there is one.
pub open spec fn display_left(report: QuarantineReport, topology: Option<TopologyView>) -> Option<
    u16,
> {
    match report.display_requester {
        Some(requester) => if !report.active_requesters@.contains(requester) && (match topology {
            Some(t) => is_covered(t, 0, requester),
            None => false,
        }) {
            Some(requester)
        } else {
            None
        },
        None => None,
    }
}

/// The display that keeps showing the firmware's picture until a Domain takes it:
/// one that was stopped, and that a remapping unit covers.
pub fn deferred_display(
    report: &QuarantineReport,
    topology: Option<&IommuTopology>,
) -> (r: Option<u16>)
    ensures
        r == display_left(*report, topology_view(topology)),
{
    let requester: u16 = match report.display_requester {
        Some(requester) => requester,
        None => {
            return None;
        },
    };
    let mut i: usize = 0;
    while i < report.active_requesters.len()
        invariant
            i <= report.active_requesters.len(),
            report.display_requester == Some(requester),
            forall|j: int| 0 <= j < i ==> #[trigger] report.active_requesters@[j] != requester,
        decreases report.active_requesters.len() - i,
    {
        if report.active_requesters[i] == requester {
            assert(report.active_requesters@[i as int] == requester);
            return None;
        }
        i += 1;
    }
    match topology {
        Some(known) => if known.covers_requester(0, requester) {
            Some(requester)
        } else {
            None
        },
        None => None,
    }
}

/// What the screen shows of a function.
pub fn pci_identity(function: PciFunction) -> (r: (u16, u16, u16, u8))
    ensures
        r == (function.requester, function.vendor, function.device, function.subclass),
{
    (function.requester, function.vendor, function.device, function.subclass)
}

/// The first storage function from `from` on, or the length.
pub open spec fn storage_from(functions: Seq<PciFunction>, from: int) -> int
    decreases functions.len() - from,
{
    if from >= functions.len() || functions[from].class == 0x01 {
        from
    } else {
        storage_from(functions, from + 1)
    }
}

/// The first two storage functions of the machine, for a screen that says that the
/// required one is missing.
pub fn storage_candidates(functions: &[PciFunction]) -> (r: (
    Option<(u16, u16, u16, u8)>,
    Option<(u16, u16, u16, u8)>,
))
    ensures
        ({
            let first = storage_from(functions@, 0);
            let second = storage_from(functions@, first + 1);
            &&& r.0 == identity_at(functions@, first)
            &&& r.1 == identity_at(functions@, second)
        }),
{
    let first: usize = next_storage(functions, 0);
    if first >= functions.len() {
        return (None, None);
    }
    let second: usize = next_storage(functions, first + 1);
    let second_identity = if second < functions.len() {
        Some(pci_identity(functions[second]))
    } else {
        None
    };
    (Some(pci_identity(functions[first])), second_identity)
}

pub open spec fn identity_at(functions: Seq<PciFunction>, i: int) -> Option<(u16, u16, u16, u8)> {
    if i < functions.len() {
        Some(
            (
                functions[i].requester,
                functions[i].vendor,
                functions[i].device,
                functions[i].subclass,
            ),
        )
    } else {
        None
    }
}

fn next_storage(functions: &[PciFunction], from: usize) -> (r: usize)
    requires
        from <= functions@.len(),
    ensures
        r == storage_from(functions@, from as int),
        from <= r <= functions@.len(),
{
    let mut i: usize = from;
    while i < functions.len() && functions[i].class != 0x01
        invariant
            from <= i <= functions.len(),
            storage_from(functions@, from as int) == storage_from(functions@, i as int),
        decreases functions.len() - i,
    {
        i += 1;
    }
    i
}

/// A kernel in a Domain's RAM, with what was loaded beside it.
#[derive(Clone, Copy, Debug, PartialEq, Eq, Structural)]
pub struct LoadedGuest {
    pub entry: u64,
    /// Where the loader put boot information.
    pub loader_info: u64,
    pub module_start: u64,
    pub module_size: u64,
}

/// What loading a kernel of either format gives, and the RAM after it. A native
/// kernel gets its boot module below its stack; a PVH kernel gets all RAM below the
/// windows.
pub open spec fn guest_loaded(
    format: ManifestImageFormat,
    image: Seq<u8>,
    initramfs: Option<Seq<u8>>,
    command_line: Seq<char>,
    ram: Seq<u8>,
) -> (Result<LoadedGuest, (Stage, Error)>, Seq<u8>) {
    let window = device_window(ram.len() as int);
    match format {
        ManifestImageFormat::NativeElf => {
            let (outcome, loaded) = elf_outcome(image, ram);
            match outcome {
                Err(e) => (Err((Stage::DomainImage, e)), loaded),
                Ok(entry) => match initramfs {
                    None => (
                        Ok(
                            LoadedGuest { entry, loader_info: 0, module_start: 0, module_size: 0 },
                        ),
                        loaded,
                    ),
                    Some(module) => {
                        let start = align_page(elf_end(image, ram));
                        if start + module.len() > window - DOMAIN_STACK_BYTES {
                            (Err((Stage::DomainBootModule, Error::ImageTooLarge)), loaded)
                        } else {
                            (
                                Ok(
                                    LoadedGuest {
                                        entry,
                                        loader_info: 0,
                                        module_start: start as u64,
                                        module_size: module.len() as u64,
                                    },
                                ),
                                spliced(loaded, start, module),
                            )
                        }
                    },
                },
            }
        },
        ManifestImageFormat::LinuxPvh => {
            let (outcome, loaded) = pvh_outcome(
                image,
                initramfs,
                command_line,
                0,
                window as u64,
                ram,
            );
            match outcome {
                Err(e) => (Err((Stage::DomainImage, e)), loaded),
                Ok(entry) => (
                    Ok(
                        LoadedGuest {
                            entry,
                            loader_info: PVH_START_INFO_GPA,
                            module_start: 0,
                            module_size: 0,
                        },
                    ),
                    loaded,
                ),
            }
        },
    }
}

/// The interrupt controller that a Domain finds at each of its starts: nothing is
/// pending, and only a Linux kernel sees the registers.
pub fn interrupt_controller(format: ManifestImageFormat) -> (r: VirtualLocalApic)
    ensures
        r.wf(),
        is_idle(r@, format is LinuxPvh),
{
    match format {
        ManifestImageFormat::LinuxPvh => VirtualLocalApic::new_x2apic(),
        ManifestImageFormat::NativeElf => VirtualLocalApic::new(),
    }
}

/// Loads a Domain's kernel, and a boot module beside it, into the Domain's RAM.
pub fn load_guest(
    format: ManifestImageFormat,
    image: &[u8],
    initramfs: Option<&[u8]>,
    command_line: &str,
    ram: &mut Vec<u8>,
) -> (r: Result<LoadedGuest, (Stage, Error)>)
    requires
        old(ram)@.len() >= GRANT_WINDOW_BYTES + DEVICE_WINDOW_BYTES,
        format == ManifestImageFormat::NativeElf && initramfs is Some ==> old(ram)@.len()
            >= GRANT_WINDOW_BYTES + DEVICE_WINDOW_BYTES + DOMAIN_STACK_BYTES,
    ensures
        ({
            let module = match initramfs {
                Some(data) => Some(data@),
                None => None,
            };
            let (outcome, after) = guest_loaded(
                format,
                image@,
                module,
                command_line@,
                old(ram)@,
            );
            r == outcome && final(ram)@ == after
        }),
{
    let memory_size: u64 = ram.len() as u64;
    let window: u64 = device_window_start(memory_size);
    match format {
        ManifestImageFormat::NativeElf => {
            let kernel = match load_elf(image, ram) {
                Ok(kernel) => kernel,
                Err(error) => {
                    return Err((Stage::DomainImage, error));
                },
            };
            match initramfs {
                None => Ok(
                    LoadedGuest {
                        entry: kernel.entry(),
                        loader_info: kernel.boot_info(),
                        module_start: 0,
                        module_size: 0,
                    },
                ),
                Some(module) => {
                    let limit: u64 = domain_stack_bottom(memory_size);
                    proof {
                        lemma_loaded_length(image@, old(ram)@);
                    }
                    match load_boot_module(module, kernel.loaded_end(), limit, ram) {
                        Ok((module_start, module_size)) => Ok(
                            LoadedGuest {
                                entry: kernel.entry(),
                                loader_info: kernel.boot_info(),
                                module_start,
                                module_size,
                            },
                        ),
                        Err(error) => Err((Stage::DomainBootModule, error)),
                    }
                },
            }
        },
        ManifestImageFormat::LinuxPvh => match load_linux_pvh(
            image,
            initramfs,
            command_line,
            0,
            window,
            ram,
        ) {
            Ok(kernel) => Ok(
                LoadedGuest {
                    entry: kernel.entry(),
                    loader_info: kernel.boot_info(),
                    module_start: 0,
                    module_size: 0,
                },
            ),
            Err(error) => Err((Stage::DomainImage, error)),
        },
    }
}

/// Gives a native kernel the page tables it starts with; a PVH kernel starts
/// without paging.
pub fn prepare_guest_tables(
    format: ManifestImageFormat,
    table: &NestedPageTable,
    memory: &mut PhysicalMemory,
) -> (r: Result<u64, Error>)
    requires
        table.wf(),
        old(memory).wf(),
        table@.is_mapped(old(memory)@),
    ensures
        final(memory).wf(),
        match format {
            ManifestImageFormat::NativeElf => if table@.guest_pages < 3 {
                r == Err::<u64, Error>(Error::InvalidPage) && final(memory)@ == old(memory)@
            } else {
                r == Ok::<u64, Error>(0) && has_guest_tables(
                    old(memory)@,
                    final(memory)@,
                    table@,
                )
            },
            ManifestImageFormat::LinuxPvh => r == Ok::<u64, Error>(0) && final(memory)@ == old(
                memory,
            )@,
        },
{
    match format {
        ManifestImageFormat::NativeElf => table.initialize_guest_page_tables(memory),
        ManifestImageFormat::LinuxPvh => Ok(0),
    }
}

/// What a stopped Domain's memory becomes before its kernel is loaded again: all RAM
/// is zero, but for the page tables of a native kernel.
pub open spec fn is_reset(
    format: ManifestImageFormat,
    r: NestedPageResources,
    before: Map<int, u64>,
    after: Map<int, u64>,
) -> bool {
    let empty = cleared(before, r.guest_base as int, 0x1000 * r.guest_pages);
    match format {
        ManifestImageFormat::NativeElf => has_guest_tables(empty, after, r),
        ManifestImageFormat::LinuxPvh => after == empty,
    }
}

/// Empties the RAM of a stopped Domain and gives its kernel the page tables it starts
/// with.
pub fn reset_guest(
    format: ManifestImageFormat,
    table: &NestedPageTable,
    memory: &mut PhysicalMemory,
) -> (r: Result<u64, (Stage, Error)>)
    requires
        table.wf(),
        old(memory).wf(),
        table@.is_mapped(old(memory)@),
    ensures
        final(memory).wf(),
        if format == ManifestImageFormat::NativeElf && table@.guest_pages < 3 {
            &&& r == Err::<u64, (Stage, Error)>((Stage::GuestPageTableRestart, Error::InvalidPage))
            &&& final(memory)@ == cleared(
                old(memory)@,
                table@.guest_base as int,
                0x1000 * table@.guest_pages,
            )
        } else {
            &&& r == Ok::<u64, (Stage, Error)>(0)
            &&& is_reset(format, table@, old(memory)@, final(memory)@)
        },
{
    table.clear_guest_memory(memory);
    match prepare_guest_tables(format, table, memory) {
        Ok(root) => Ok(root),
        Err(error) => Err((Stage::GuestPageTableRestart, error)),
    }
}

/// The stage that failed, where a Domain is started again.
pub open spec fn restart_stage(stage: Stage) -> Stage {
    match stage {
        Stage::DomainBootModule => Stage::DomainBootModuleRestart,
        _ => Stage::DomainImageRestart,
    }
}

/// Loads a Domain's kernel once more.
pub fn reload_guest(
    format: ManifestImageFormat,
    image: &[u8],
    initramfs: Option<&[u8]>,
    command_line: &str,
    ram: &mut Vec<u8>,
) -> (r: Result<LoadedGuest, (Stage, Error)>)
    requires
        old(ram)@.len() >= GRANT_WINDOW_BYTES + DEVICE_WINDOW_BYTES,
        format == ManifestImageFormat::NativeElf && initramfs is Some ==> old(ram)@.len()
            >= GRANT_WINDOW_BYTES + DEVICE_WINDOW_BYTES + DOMAIN_STACK_BYTES,
    ensures
        ({
            let module = match initramfs {
                Some(data) => Some(data@),
                None => None,
            };
            let (outcome, after) = guest_loaded(
                format,
                image@,
                module,
                command_line@,
                old(ram)@,
            );
            &&& final(ram)@ == after
            &&& r == (match outcome {
                Ok(guest) => Ok::<LoadedGuest, (Stage, Error)>(guest),
                Err((stage, error)) => Err((restart_stage(stage), error)),
            })
        }),
{
    match load_guest(format, image, initramfs, command_line, ram) {
        Ok(guest) => Ok(guest),
        Err((stage, error)) => match stage {
            Stage::DomainBootModule => Err((Stage::DomainBootModuleRestart, error)),
            _ => Err((Stage::DomainImageRestart, error)),
        },
    }
}

/// A Domain that is started again finds nothing of its earlier life: whatever its RAM
/// held, every word of it is the same once it was reset, and nothing outside of it has
/// changed.
pub proof fn law_restart_forgets_the_memory(
    format: ManifestImageFormat,
    r: NestedPageResources,
    before: Map<int, u64>,
    after: Map<int, u64>,
    other_before: Map<int, u64>,
    other_after: Map<int, u64>,
    a: int,
)
    requires
        r.is_valid(),
        is_reset(format, r, before, after),
        is_reset(format, r, other_before, other_after),
        r.guest_pages >= 3 || format == ManifestImageFormat::LinuxPvh,
        a % 8 == 0,
        before.dom().contains(a),
        other_before.dom().contains(a),
    ensures
        r.guest_base <= a < r.guest_base + 0x1000 * r.guest_pages ==> after[a] == other_after[a],
        !(r.guest_base <= a < r.guest_base + 0x1000 * r.guest_pages) ==> after[a] == before[a],
{
    let base = r.guest_base as int;
    if format == ManifestImageFormat::NativeElf && base <= a < base + 0x3000 {
        let i = (a - base) / 8;
        assert(a == base + 8 * i);
        if i < 512 {
            assert(a == slot(base, i));
        } else if i < 1024 {
            assert(a == slot(base + 0x1000, i - 512));
        } else {
            assert(a == slot(base + 0x2000, i - 1024));
        }
    }
}

/// A device that can still start DMA when the Domains are launched is confined to
/// the ranges that the firmware keeps for it.
pub proof fn law_active_devices_have_reserved_ranges(
    report: QuarantineReport,
    topology: Option<TopologyView>,
    i: int,
)
    requires
        all_reserved(report, topology),
        0 <= i < report.active_requesters@.len(),
    ensures
        topology matches Some(t) && is_reserved(t, report.active_requesters@[i]),
{
}

/// Where the policies are dropped, no device but a display was required.
pub proof fn law_dropped_policies_require_no_other_device(policies: Seq<ManifestDevice>, i: int)
    requires
        forall|j: int| 0 <= j < policies.len() ==> can_fall_back(#[trigger] policies[j]),
        0 <= i < policies.len(),
        policies[i].has_flag(DEVICE_FLAG_REQUIRED),
    ensures
        policies[i].kind == ManifestDeviceKind::Display,
{
}

/// Two failures never show the same code.
pub proof fn law_failures_have_their_own_codes(a: BootFailure, b: BootFailure)
    ensures
        a.number() == b.number() <==> a == b,
        1 <= a.number() <= 18 && a.number() != 10 || a.number() == 60 || a.number() == 61,
        a == BootFailure::NetworkBundle <==> a.number() == 60,
        a == BootFailure::Entropy <==> a.number() == 61,
{
}

/// The codes of the failures before a Domain is set up.
pub proof fn law_early_failures_show_their_codes(a: BootFailure)
    ensures
        a.number() == 1 <==> a is NoVirtualization,
        a.number() == 2 <==> a is ManifestMissing,
        a.number() == 3 <==> a is ManifestInvalid,
        a.number() == 4 <==> a is AddressSpaces,
        a.number() == 5 <==> a is InvalidEntry,
        a.number() == 6 <==> a is UnsupportedDomain,
        a.number() == 7 <==> a is ImageMissing,
        a.number() == 8 <==> a is ImageDigest,
        a.number() == 9 <==> a is SystemDomains,
        a.number() == 11 <==> a is HostPage,
        a.number() == 12 <==> a is VcpuPage,
        a.number() == 13 <==> a is NestedPages,
        a.number() == 14 <==> a is MsrPages,
        a.number() == 15 <==> a is IommuDescription,
        a.number() == 16 <==> a is IommuMismatch,
        a.number() == 17 <==> a is IommuMissing,
        a.number() == 18 <==> a is IommuTables,
{
}

/// Each make of processor goes with the remapping units of the same maker.
pub proof fn law_processor_and_iommu_are_of_one_make(backend: BackendKind)
    ensures
        iommu_for(backend) is IntelVtd <==> backend is IntelVmx,
        iommu_for(backend) is AmdVi <==> backend is AmdSvm,
{
}

/// A Domain is started exactly where it starts by itself, has one virtual CPU and at
/// least 96 and at most 65536 whole pages of memory; its pages are then counted
/// rounded down.
pub proof fn law_startable_domains_are_counted_in_pages(config: ManifestDomain)
    ensures
        match domain_verdict(config) {
            Ok(pages) => {
                &&& config.flags & 1 != 0
                &&& config.vcpu_count == 1
                &&& 4096 * pages <= config.memory_size < 4096 * (pages + 1)
                &&& 96 <= pages <= 65536
            },
            Err(e) => {
                &&& e == BootFailure::UnsupportedDomain
                &&& config.flags & 1 == 0 || config.vcpu_count != 1 || config.memory_size < 4096
                    * 96 || config.memory_size >= 4096 * (65536 + 1)
            },
        },
{
}

/// Of the first `n` Domains, this one is a System Domain and no other is.
pub open spec fn is_only_system(roles: Seq<ManifestDomainRole>, n: int, i: int) -> bool {
    &&& 0 <= i < n
    &&& roles[i] is System
    &&& forall|j: int| 0 <= j < n && j != i ==> !(#[trigger] roles[j] is System)
}

/// The System Domains are counted exactly once each: there is one exactly where one
/// Domain has the role and no other has it.
pub proof fn law_one_system_domain_is_the_only_one(roles: Seq<ManifestDomainRole>)
    ensures
        system_domains(roles, roles.len() as int) == 1 <==> exists|i: int|
            is_only_system(roles, roles.len() as int, i),
{
    lemma_system_domains(roles, roles.len() as int);
}

proof fn lemma_system_domains(roles: Seq<ManifestDomainRole>, n: int)
    requires
        0 <= n <= roles.len(),
    ensures
        system_domains(roles, n) >= 0,
        system_domains(roles, n) == 0 <==> forall|j: int|
            0 <= j < n ==> !(#[trigger] roles[j] is System),
        system_domains(roles, n) == 1 <==> exists|i: int| is_only_system(roles, n, i),
    decreases n,
{
    if n > 0 {
        lemma_system_domains(roles, n - 1);
        let last = n - 1;
        if roles[last] is System {
            if system_domains(roles, n - 1) == 0 {
                assert(is_only_system(roles, n, last));
            } else if exists|i: int| is_only_system(roles, n, i) {
                let i = choose|i: int| is_only_system(roles, n, i);
                assert(i == last);
            }
        } else {
            if system_domains(roles, n - 1) == 1 {
                let i = choose|i: int| is_only_system(roles, last, i);
                assert(is_only_system(roles, n, i));
            }
            if exists|i: int| is_only_system(roles, n, i) {
                let i = choose|i: int| is_only_system(roles, n, i);
                assert(is_only_system(roles, n - 1, i));
            }
        }
    }
}

/// The policies are dropped exactly where there are some, no unit confines a device, the
/// firmware's framebuffer is there, and each policy selects its devices by kind and is
/// for a display or not required. The launch fails exactly where one is left that cannot
/// be kept.
pub proof fn law_policies_are_kept_or_dropped_or_fail(
    policies: Seq<ManifestDevice>,
    has_iommu: bool,
    has_framebuffer: bool,
)
    ensures
        ({
            let needed = |p: ManifestDevice|
                p.requester != 0xffff || p.flags & 1 != 0 && !(p.kind is Display);
            match policies_dropped(policies, has_iommu, has_framebuffer) {
                Ok(true) => {
                    &&& !has_iommu && has_framebuffer && policies.len() > 0
                    &&& forall|i: int| 0 <= i < policies.len() ==> !needed(#[trigger] policies[i])
                },
                Ok(false) => has_iommu || policies.len() == 0,
                Err(e) => {
                    &&& e == BootFailure::IommuMissing
                    &&& !has_iommu && policies.len() > 0
                    &&& has_framebuffer ==> exists|i: int|
                        0 <= i < policies.len() && needed(#[trigger] policies[i])
                },
            }
        }),
{
    if policies_dropped(policies, has_iommu, has_framebuffer) is Err && has_framebuffer {
        let i = choose|i: int| 0 <= i < policies.len() && !can_fall_back(#[trigger] policies[i]);
        assert(policies[i].requester != 0xffff || policies[i].flags & 1 != 0 && !(
        policies[i].kind is Display));
    }
}

/// The launch goes on exactly where no device can start DMA, or where every one that can
/// was recorded and has a range that the firmware keeps for it. Else the first such device
/// is named.
pub proof fn law_launch_goes_on_where_devices_are_confined(
    report: QuarantineReport,
    topology: Option<TopologyView>,
)
    requires
        report.active_requesters@.len() <= u32::MAX,
    ensures
        match quarantine_verdict(report, topology) {
            QuarantineVerdict::Quiet => report.bus_masters_active == 0,
            QuarantineVerdict::Reserved => {
                &&& report.bus_masters_active > 0
                &&& report.active_requesters@.len() == report.bus_masters_active
                &&& topology matches Some(t)
                &&& forall|i: int|
                    0 <= i < report.active_requesters@.len() ==> is_reserved(
                        t,
                        #[trigger] report.active_requesters@[i],
                    )
            },
            QuarantineVerdict::Refused { first } => {
                &&& first == report.first_active_requester
                &&& report.bus_masters_active > 0
                &&& report.active_requesters@.len() == report.bus_masters_active && topology is Some
                    ==> exists|i: int|
                    0 <= i < report.active_requesters@.len() && !is_reserved(
                        topology->0,
                        #[trigger] report.active_requesters@[i],
                    )
            },
        },
{
}

/// A requester has a range of its own exactly where one of the firmware's ranges is for
/// it, in the first segment.
pub proof fn law_reserved_range_names_the_requester(t: TopologyView, requester: u16, i: int)
    ensures
        0 <= i < t.reserved.len() && t.reserved[i].segment == 0 && t.reserved[i].requester
            == requester ==> is_reserved(t, requester),
        (forall|j: int|
            0 <= j < t.reserved.len() ==> (#[trigger] t.reserved[j]).segment != 0
                || t.reserved[j].requester != requester) ==> !is_reserved(t, requester),
{
}

/// A display is left to the firmware exactly where it is the machine's, was stopped, and
/// a remapping unit of the first segment covers it.
pub proof fn law_display_is_left_where_it_is_confined(
    report: QuarantineReport,
    topology: Option<TopologyView>,
    requester: u16,
)
    ensures
        display_left(report, topology) == Some(requester) <==> {
            &&& report.display_requester == Some(requester)
            &&& forall|i: int|
                0 <= i < report.active_requesters@.len() ==> #[trigger]
                    report.active_requesters@[i] != requester
            &&& topology matches Some(t) && is_covered(t, 0, requester)
        },
{
}

/// The candidates are the first two functions of the storage class, in the order in which
/// they were found.
pub proof fn law_storage_candidates_come_first(functions: Seq<PciFunction>, from: int, i: int)
    requires
        0 <= from <= functions.len(),
    ensures
        ({
            let at = storage_from(functions, from);
            &&& from <= at <= functions.len()
            &&& at < functions.len() ==> functions[at].class == 1
            &&& from <= i < at ==> functions[i].class != 1
        }),
        0 <= i < functions.len() ==> identity_at(functions, i) == Some(
            (
                functions[i].requester,
                functions[i].vendor,
                functions[i].device,
                functions[i].subclass,
            ),
        ),
        i >= functions.len() ==> identity_at(functions, i) is None,
    decreases functions.len() - from,
{
    if from < functions.len() && functions[from].class != 1 {
        law_storage_candidates_come_first(functions, from + 1, i);
    }
}

/// A native kernel finds its boot module on the first page behind itself: the bytes of the
/// module are there, all other RAM is as loading the kernel left it, and the module ends
/// below the last megabyte under the windows. It is refused exactly where it does not fit.
#[verifier::spinoff_prover]
pub proof fn law_native_kernel_finds_its_module(
    image: Seq<u8>,
    module: Seq<u8>,
    command_line: Seq<char>,
    ram: Seq<u8>,
    i: int,
)
    requires
        0 <= i < ram.len() <= u64::MAX,
        elf_outcome(image, ram).0 is Ok,
        0 <= elf_end(image, ram),
    ensures
        ({
            let (outcome, after) = guest_loaded(
                ManifestImageFormat::NativeElf,
                image,
                Some(module),
                command_line,
                ram,
            );
            let (kernel, loaded) = elf_outcome(image, ram);
            let end = elf_end(image, ram);
            let limit = ram.len() - 0x15_0000;
            &&& after.len() == ram.len()
            &&& match outcome {
                Ok(guest) => {
                    &&& Ok::<u64, Error>(guest.entry) == kernel
                    &&& guest.loader_info == 0
                    &&& guest.module_start % 4096 == 0
                    &&& end <= guest.module_start < end + 4096
                    &&& guest.module_size == module.len()
                    &&& guest.module_start + module.len() <= limit
                    &&& after[i] == (if guest.module_start <= i < guest.module_start
                        + module.len() {
                        module[i - guest.module_start]
                    } else {
                        loaded[i]
                    })
                },
                Err((stage, error)) => {
                    &&& stage == Stage::DomainBootModule
                    &&& error == Error::ImageTooLarge
                    &&& after == loaded
                    &&& (end + 4095) / 4096 * 4096 + module.len() > limit
                },
            }
        }),
{
    lemma_loaded_length(image, ram);
    lemma_next_page(elf_end(image, ram));
}

proof fn lemma_next_page(n: int)
    ensures
        align_page(n) == (n + 4095) / 4096 * 4096,
        n <= align_page(n) < n + 4096,
        align_page(n) % 4096 == 0,
{
    reveal(align_page);
    vstd::arithmetic::div_mod::lemma_mod_multiples_basic((n + 4095) / 4096, 4096);
}

/// A kernel that comes alone has no module, and whatever loading a kernel says of its
/// entry, its RAM and its failure is what its Domain gets. Only a Linux kernel is told
/// where its start information is.
pub proof fn law_kernel_alone_is_loaded_as_it_is(
    image: Seq<u8>,
    initramfs: Option<Seq<u8>>,
    command_line: Seq<char>,
    ram: Seq<u8>,
)
    ensures
        ({
            let (native, native_ram) = guest_loaded(
                ManifestImageFormat::NativeElf,
                image,
                None,
                command_line,
                ram,
            );
            let (linux, linux_ram) = guest_loaded(
                ManifestImageFormat::LinuxPvh,
                image,
                initramfs,
                command_line,
                ram,
            );
            let (elf, elf_ram) = elf_outcome(image, ram);
            let (pvh, pvh_ram) = pvh_outcome(
                image,
                initramfs,
                command_line,
                0,
                (ram.len() - 0x5_0000) as u64,
                ram,
            );
            &&& native_ram == elf_ram
            &&& linux_ram == pvh_ram
            &&& match elf {
                Ok(entry) => native matches Ok(g) && g.entry == entry && g.loader_info == 0
                    && g.module_start == 0 && g.module_size == 0,
                Err(e) => native matches Err((stage, error)) && stage is DomainImage && error == e,
            }
            &&& match pvh {
                Ok(entry) => linux matches Ok(g) && g.entry == entry && g.loader_info == 0x4000
                    && g.module_start == 0 && g.module_size == 0,
                Err(e) => linux matches Err((stage, error)) && stage is DomainImage && error == e,
            }
        }),
{
}

/// Where a Domain is started again, the screen says so, and says whether its module or its
/// kernel failed.
pub proof fn law_restart_failures_are_told_apart(stage: Stage)
    ensures
        stage is DomainBootModule ==> restart_stage(stage) is DomainBootModuleRestart,
        !(stage is DomainBootModule) ==> restart_stage(stage) is DomainImageRestart,
{
}

} // verus!
