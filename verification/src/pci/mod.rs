//! PCI functions: discovery, isolation and assignment.

pub mod interrupt;
pub mod probe;
pub mod quarantine;

use vstd::prelude::*;

use crate::abi::{
    PciDeviceResource, PCI_DEVICE_INTERRUPT_COUNT, PCI_RESOURCE_FLAG_READABLE,
    PCI_RESOURCE_FLAG_WRITABLE, PCI_RESOURCE_KIND_MMIO,
};

verus! {

pub const COMMAND_IO: u16 = 0x1;

pub const COMMAND_MEMORY: u16 = 0x2;

pub const COMMAND_BUS_MASTER: u16 = 0x4;

pub const COMMAND_INTERRUPT_DISABLE: u16 = 0x400;

/// I/O and memory decoding, and bus mastering.
pub const COMMAND_DECODING: u16 = 0x7;

pub const STATUS_CAPABILITIES: u16 = 0x10;

pub const CAPABILITY_MSI: u8 = 0x05;

pub const CAPABILITY_PCIE: u8 = 0x10;

pub const CAPABILITY_MSIX: u8 = 0x11;

pub const MSI_ENABLE: u16 = 0x1;

pub const MSI_VECTOR_COUNT: u16 = 0x70;

pub const MSI_64_BIT: u16 = 0x80;

pub const MSI_PER_VECTOR_MASK: u16 = 0x100;

pub const MSIX_FUNCTION_MASK: u16 = 0x4000;

pub const MSIX_ENABLE: u16 = 0x8000;

pub const MSIX_TABLE_SIZE: u16 = 0x07ff;

pub const MSIX_TABLE_BIR: u32 = 0x7;

pub const MSIX_TABLE_OFFSET: u32 = 0xffff_fff8;

pub const MSIX_ENTRY_MASKED: u32 = 1;

pub const PCIE_DEVICE_CAP_FLR: u32 = 0x1000_0000;

pub const PCIE_DEVICE_CONTROL_FLR: u16 = 0x8000;

pub const INTEL_VENDOR_ID: u16 = 0x8086;

pub const INTEL_GRAPHICS_REQUESTER: u16 = 0x0010;

pub const INTEL_BDSM: u8 = 0xb0;

pub const INTEL_BGSM: u8 = 0xb4;

pub const INTEL_TOLUD: u8 = 0xbc;

pub const INTEL_MEMORY_BASE_MASK: u32 = 0xfff0_0000;

pub const MAX_INTEL_STOLEN_MEMORY: u64 = 0x4000_0000;

pub const MAX_DEVICE_BARS: usize = 6;

pub const MAX_ASSIGNMENTS: usize = 32;

pub const DEVICE_VECTOR_FIRST: u8 = 0x50;

pub const DEVICE_VECTOR_LAST: u8 = 0x8f;

pub const X2APIC_ENABLE: u64 = 0x400;

pub const APIC_ENABLE: u64 = 0x800;

pub const MAX_ACTIVE_REQUESTERS: usize = 32;

pub const MAX_INVENTORY_FUNCTIONS: usize = 256;

/// One function found on the bus.
#[derive(Clone, Copy, Debug, PartialEq, Eq, Structural)]
pub struct PciFunction {
    pub requester: u16,
    pub vendor: u16,
    pub device: u16,
    pub class: u8,
    pub subclass: u8,
}

impl Default for PciFunction {
    fn default() -> (r: Self)
        ensures
            r == (PciFunction { requester: 0, vendor: 0, device: 0, class: 0, subclass: 0 }),
    {
        PciFunction { requester: 0, vendor: 0, device: 0, class: 0, subclass: 0 }
    }
}

/// A memory range that a function decodes.
#[derive(Clone, Copy, Debug, PartialEq, Eq, Structural)]
pub struct PciBar {
    pub index: u8,
    pub physical_address: u64,
    pub length: u64,
    pub guest_address: u64,
}

pub open spec fn empty_bar() -> PciBar {
    PciBar { index: 0, physical_address: 0, length: 0, guest_address: 0 }
}

impl Default for PciBar {
    fn default() -> (r: Self)
        ensures
            r == empty_bar(),
    {
        PciBar { index: 0, physical_address: 0, length: 0, guest_address: 0 }
    }
}

/// What a probe found out about a function. The offsets are those of its
/// capabilities, or zero.
#[derive(Clone, Copy, Debug, PartialEq, Eq)]
pub struct PciDescriptor {
    pub requester: u16,
    pub original_command: u16,
    pub bars: [PciBar; 6],
    pub bar_count: usize,
    pub msi_capability: u8,
    pub msix_capability: u8,
    pub pcie_capability: u8,
}

impl PciDescriptor {
    /// The count fits, the slots behind it are empty, and the capabilities fit in
    /// configuration space.
    pub open spec fn wf(self) -> bool {
        &&& self.bar_count <= MAX_DEVICE_BARS
        &&& forall|i: int|
            self.bar_count <= i < MAX_DEVICE_BARS ==> #[trigger] self.bars@[i] == empty_bar()
        &&& self.msi_capability <= 0xec
        &&& self.msix_capability <= 0xf8
        &&& self.pcie_capability <= 0xf6
    }

    /// Nothing is described.
    pub open spec fn is_empty(self) -> bool {
        &&& self.requester == 0
        &&& self.original_command == 0
        &&& self.bars@ == Seq::new(6, |i: int| empty_bar())
        &&& self.bar_count == 0
        &&& self.msi_capability == 0
        &&& self.msix_capability == 0
        &&& self.pcie_capability == 0
    }

    /// The BARs that are in use.
    pub open spec fn used_bars(self) -> Seq<PciBar> {
        self.bars@.take(self.bar_count as int)
    }
}

impl Default for PciDescriptor {
    fn default() -> (r: Self)
        ensures
            r.is_empty(),
            r.wf(),
    {
        let bars: [PciBar; 6] = [PciBar::default(); 6];
        assert(bars@ =~= Seq::new(6, |i: int| empty_bar()));
        PciDescriptor {
            requester: 0,
            original_command: 0,
            bars,
            bar_count: 0,
            msi_capability: 0,
            msix_capability: 0,
            pcie_capability: 0,
        }
    }
}

/// A slot of the assignment table.
#[derive(Clone, Copy, Debug, PartialEq, Eq)]
pub struct Assignment {
    pub valid: bool,
    pub active: bool,
    pub domain_id: u32,
    pub guest_vectors: [u8; 2],
    pub interrupt_count: u8,
    pub descriptor: PciDescriptor,
}

/// The slot holds nothing.
pub open spec fn is_vacant(a: Assignment) -> bool {
    &&& !a.valid
    &&& !a.active
    &&& a.domain_id == 0
    &&& a.guest_vectors@ == seq![0u8, 0u8]
    &&& a.interrupt_count == 0
    &&& a.descriptor.is_empty()
}

impl Default for Assignment {
    fn default() -> (r: Self)
        ensures
            is_vacant(r),
    {
        let guest_vectors: [u8; 2] = [0; 2];
        assert(guest_vectors@ =~= seq![0u8, 0u8]);
        Assignment {
            valid: false,
            active: false,
            domain_id: 0,
            guest_vectors,
            interrupt_count: 0,
            descriptor: PciDescriptor::default(),
        }
    }
}

/// How a function signals: one message, one table entry, or two.
#[derive(Clone, Copy, Debug, PartialEq, Eq, Structural)]
pub enum PciInterruptMode {
    Msi,
    MsixShared,
    MsixSplit,
}

impl PciInterruptMode {
    pub open spec fn count(self) -> int {
        match self {
            PciInterruptMode::Msi => 1,
            PciInterruptMode::MsixShared => 1,
            PciInterruptMode::MsixSplit => 2,
        }
    }

    pub fn interrupt_count(self) -> (r: usize)
        ensures
            r == self.count(),
    {
        match self {
            PciInterruptMode::Msi => 1,
            PciInterruptMode::MsixShared => 1,
            PciInterruptMode::MsixSplit => PCI_DEVICE_INTERRUPT_COUNT,
        }
    }
}

#[derive(Clone, Copy, Debug, PartialEq, Eq)]
pub struct PciActivation {
    pub physical_vectors: [u8; 2],
    pub mode: PciInterruptMode,
}

#[derive(Clone, Copy, Debug, PartialEq, Eq, Structural)]
pub enum PciError {
    InvalidRequester,
    InvalidState,
    UnsupportedHeader,
    UnsupportedBar,
    InvalidBar,
    DeviceWindowExhausted,
    InterruptUnavailable,
    RegisterWriteFailed,
}

/// Which function is assigned to which Domain.
pub struct AssignmentTable {
    assignments: [Assignment; 32],
}

impl View for AssignmentTable {
    type V = Seq<Assignment>;

    closed spec fn view(&self) -> Seq<Assignment> {
        self.assignments@
    }
}

/// The registers of a window that cannot be used, and why.
#[derive(Clone, Copy, Debug, PartialEq, Eq, Structural)]
pub struct BarProbeFailure {
    pub index: u8,
    pub reason: u8,
    pub high: u32,
    pub low: u32,
    pub mask_high: u32,
    pub mask_low: u32,
}

/// The slot holds the function for some Domain.
pub open spec fn holds_requester(a: Assignment, requester: u16) -> bool {
    a.valid && a.descriptor.requester == requester
}

/// The slot holds the function for this Domain.
pub open spec fn is_assigned(a: Assignment, domain_id: u32, requester: u16) -> bool {
    a.valid && a.domain_id == domain_id && a.descriptor.requester == requester
}

/// The first slot from `from` on that holds the function for the Domain, or 32.
pub open spec fn slot_of(s: Seq<Assignment>, domain_id: u32, requester: u16, from: int) -> int
    decreases s.len() - from,
{
    if from >= s.len() || is_assigned(s[from], domain_id, requester) {
        from
    } else {
        slot_of(s, domain_id, requester, from + 1)
    }
}

/// The first slot from `from` on that is free, or 32.
pub open spec fn free_slot(s: Seq<Assignment>, from: int) -> int
    decreases s.len() - from,
{
    if from >= s.len() || !s[from].valid {
        from
    } else {
        free_slot(s, from + 1)
    }
}

/// No function is assigned twice, every slot in use is complete, and the others hold
/// nothing.
pub open spec fn assignments_wf(s: Seq<Assignment>) -> bool {
    &&& s.len() == MAX_ASSIGNMENTS
    &&& forall|i: int|
        0 <= i < s.len() ==> {
            let a = #[trigger] s[i];
            &&& a.interrupt_count <= 2
            &&& a.valid ==> a.domain_id != 0 && a.descriptor.requester != 0 && a.descriptor.wf()
                && a.descriptor.bar_count > 0
            &&& a.active ==> a.valid && a.interrupt_count > 0
            &&& !a.active ==> a.interrupt_count == 0
            &&& !a.valid ==> is_vacant(a)
        }
    &&& forall|i: int, j: int|
        0 <= i < j < s.len() && (#[trigger] s[i]).valid && (#[trigger] s[j]).valid
            ==> s[i].descriptor.requester != s[j].descriptor.requester
}

/// Whether the whole range lies in the window.
pub open spec fn bar_in_window(bar: PciBar, start: int, size: int) -> bool {
    start <= bar.physical_address && bar.physical_address + bar.length <= start + size
}

/// Why a function cannot be entered into the table.
pub open spec fn insert_error(
    s: Seq<Assignment>,
    domain_id: u32,
    descriptor: PciDescriptor,
    window_start: u64,
    window_size: u64,
) -> Option<PciError> {
    if domain_id == 0 || descriptor.requester == 0 || descriptor.bar_count == 0 || window_start
        % 0x1000 != 0 || window_size == 0 || window_size % 0x1000 != 0 || window_start + window_size
        > u64::MAX || exists|i: int|
        0 <= i < s.len() && holds_requester(#[trigger] s[i], descriptor.requester) {
        Some(PciError::InvalidState)
    } else if free_slot(s, 0) >= s.len() || exists|i: int|
        0 <= i < descriptor.bar_count && !bar_in_window(
            #[trigger] descriptor.bars@[i],
            window_start as int,
            window_size as int,
        ) {
        Some(PciError::DeviceWindowExhausted)
    } else {
        None
    }
}

/// The BARs as the guest sees them: at the addresses that the firmware chose.
pub open spec fn identity_bars(bars: Seq<PciBar>) -> Seq<PciBar> {
    bars.map_values(|bar: PciBar| PciBar { guest_address: bar.physical_address, ..bar })
}

/// A fresh slot for the function.
pub open spec fn is_inserted(a: Assignment, domain_id: u32, descriptor: PciDescriptor) -> bool {
    &&& a.valid
    &&& !a.active
    &&& a.domain_id == domain_id
    &&& a.guest_vectors@ == seq![0u8, 0u8]
    &&& a.interrupt_count == 0
    &&& a.descriptor.wf()
    &&& a.descriptor.requester == descriptor.requester
    &&& a.descriptor.original_command == descriptor.original_command
    &&& a.descriptor.bar_count == descriptor.bar_count
    &&& a.descriptor.msi_capability == descriptor.msi_capability
    &&& a.descriptor.msix_capability == descriptor.msix_capability
    &&& a.descriptor.pcie_capability == descriptor.pcie_capability
    &&& a.descriptor.used_bars() == identity_bars(descriptor.used_bars())
}

impl Default for AssignmentTable {
    fn default() -> (r: Self)
        ensures
            r.wf(),
            forall|i: int| 0 <= i < 32 ==> is_vacant(#[trigger] r@[i]),
    {
        AssignmentTable::new()
    }
}

impl AssignmentTable {
    pub open spec fn wf(self) -> bool {
        assignments_wf(self@)
    }

    /// A table without any assignment.
    pub fn new() -> (r: Self)
        ensures
            r.wf(),
            forall|i: int| 0 <= i < 32 ==> is_vacant(#[trigger] r@[i]),
    {
        let empty = Assignment::default();
        AssignmentTable { assignments: [empty; 32] }
    }

    /// The slot that holds the function for the Domain, or 32.
    fn find(&self, domain_id: u32, requester: u16) -> (r: usize)
        ensures
            r == slot_of(self@, domain_id, requester, 0),
            r <= 32,
            r < 32 ==> is_assigned(self@[r as int], domain_id, requester),
            forall|j: int| 0 <= j < r ==> !is_assigned(#[trigger] self@[j], domain_id, requester),
            self@.len() == 32,
    {
        let mut i: usize = 0;
        while i < 32
            invariant
                i <= 32,
                self@.len() == 32,
                slot_of(self@, domain_id, requester, 0) == slot_of(
                    self@,
                    domain_id,
                    requester,
                    i as int,
                ),
                forall|j: int|
                    0 <= j < i ==> !is_assigned(#[trigger] self@[j], domain_id, requester),
            decreases 32 - i,
        {
            if self.assignments[i].valid && self.assignments[i].domain_id == domain_id
                && self.assignments[i].descriptor.requester == requester {
                return i;
            }
            i += 1;
        }
        32
    }

    /// Enters a function for a Domain. Its BARs must lie in the window; the guest
    /// sees them where the firmware put them.
    pub fn insert(
        &mut self,
        domain_id: u32,
        descriptor: PciDescriptor,
        window_start: u64,
        window_size: u64,
    ) -> (r: Result<Vec<PciBar>, PciError>)
        requires
            old(self).wf(),
            descriptor.wf(),
        ensures
            final(self).wf(),
            match r {
                Ok(bars) => {
                    let slot = free_slot(old(self)@, 0);
                    &&& insert_error(old(self)@, domain_id, descriptor, window_start, window_size) is None
                    &&& bars@ == identity_bars(descriptor.used_bars())
                    &&& final(self)@ == old(self)@.update(slot, final(self)@[slot])
                    &&& is_inserted(final(self)@[slot], domain_id, descriptor)
                },
                Err(e) => {
                    &&& insert_error(old(self)@, domain_id, descriptor, window_start, window_size)
                        == Some(e)
                    &&& final(self)@ == old(self)@
                },
            },
    {
        if domain_id == 0 || descriptor.requester == 0 || descriptor.bar_count == 0 || window_start
            % 0x1000 != 0 || window_size == 0 || window_size % 0x1000 != 0 {
            return Err(PciError::InvalidState);
        }
        let window_end: u64 = match window_start.checked_add(window_size) {
            Some(end) => end,
            None => return Err(PciError::InvalidState),
        };
        let ghost before = self@;
        let mut slot: usize = 32;
        let mut i: usize = 32;
        while i > 0
            invariant
                i <= 32,
                before == self@,
                before == old(self)@,
                assignments_wf(before),
                before.len() == 32,
                forall|j: int|
                    i <= j < 32 ==> !holds_requester(#[trigger] before[j], descriptor.requester),
                slot == free_slot(before, i as int),
                domain_id != 0,
                descriptor.requester != 0,
                descriptor.bar_count != 0,
            decreases i,
        {
            i -= 1;
            if self.assignments[i].valid {
                if self.assignments[i].descriptor.requester == descriptor.requester {
                    assert(holds_requester(before[i as int], descriptor.requester));
                    return Err(PciError::InvalidState);
                }
            } else {
                slot = i;
            }
        }
        proof {
            lemma_free_slot(before, 0);
        }
        if slot >= 32 {
            return Err(PciError::DeviceWindowExhausted);
        }
        let mut placed = descriptor;
        let mut bars: Vec<PciBar> = Vec::new();
        let mut n: usize = 0;
        while n < descriptor.bar_count
            invariant
                n <= descriptor.bar_count <= 6,
                window_end == window_start + window_size,
                before == self@,
                before == old(self)@,
                assignments_wf(before),
                slot == free_slot(before, 0),
                slot < 32,
                before.len() == 32,
                domain_id != 0,
                descriptor.requester != 0,
                descriptor.bar_count != 0,
                window_start % 0x1000 == 0,
                window_size != 0,
                window_size % 0x1000 == 0,
                forall|j: int|
                    0 <= j < 32 ==> !holds_requester(#[trigger] before[j], descriptor.requester),
                bars@.len() == n,
                placed.bars@.len() == 6,
                descriptor.wf(),
                forall|j: int| n <= j < 6 ==> #[trigger] placed.bars@[j] == descriptor.bars@[j],
                placed.requester == descriptor.requester,
                placed.original_command == descriptor.original_command,
                placed.bar_count == descriptor.bar_count,
                placed.msi_capability == descriptor.msi_capability,
                placed.msix_capability == descriptor.msix_capability,
                placed.pcie_capability == descriptor.pcie_capability,
                forall|j: int|
                    0 <= j < n ==> bar_in_window(
                        #[trigger] descriptor.bars@[j],
                        window_start as int,
                        window_size as int,
                    ),
                forall|j: int|
                    0 <= j < n ==> #[trigger] bars@[j] == (PciBar {
                        guest_address: descriptor.bars@[j].physical_address,
                        ..descriptor.bars@[j]
                    }),
                forall|j: int| 0 <= j < n ==> #[trigger] placed.bars@[j] == bars@[j],
            decreases descriptor.bar_count - n,
        {
            let mut bar = descriptor.bars[n];
            assert(bar == descriptor.bars@[n as int]);
            let end: u64 = match bar.physical_address.checked_add(bar.length) {
                Some(end) => end,
                None => return Err(PciError::DeviceWindowExhausted),
            };
            if bar.physical_address < window_start || end > window_end {
                return Err(PciError::DeviceWindowExhausted);
            }
            bar.guest_address = bar.physical_address;
            placed.bars[n] = bar;
            bars.push(bar);
            n += 1;
        }
        assert(bars@ =~= identity_bars(descriptor.used_bars()));
        assert(placed.used_bars() =~= identity_bars(descriptor.used_bars()));
        let guest_vectors: [u8; 2] = [0; 2];
        assert(guest_vectors@ =~= seq![0u8, 0u8]);
        self.assignments[slot] =
        Assignment {
            valid: true,
            active: false,
            domain_id,
            guest_vectors,
            interrupt_count: 0,
            descriptor: placed,
        };
        proof {
            lemma_free_slot(before, 0);
            assert(self@ =~= before.update(slot as int, self@[slot as int]));
        }
        Ok(bars)
    }
}

/// The free slot that is found is free.
pub proof fn lemma_free_slot(s: Seq<Assignment>, from: int)
    requires
        0 <= from <= s.len(),
    ensures
        from <= free_slot(s, from) <= s.len(),
        free_slot(s, from) < s.len() ==> !s[free_slot(s, from)].valid,
    decreases s.len() - from,
{
    if from < s.len() && s[from].valid {
        lemma_free_slot(s, from + 1);
    }
}

/// The physical vector of interrupt `index` of the function in a slot.
pub open spec fn vector_of(slot: int, index: int) -> int {
    DEVICE_VECTOR_FIRST + 2 * slot + index
}

/// The bits of a pending word that belong to a slot.
pub open spec fn slot_pending_mask(slot: int) -> u64 {
    0b11u64 << ((2 * slot) as u64)
}

pub fn physical_vector(slot: usize, index: usize) -> (r: u8)
    requires
        slot < MAX_ASSIGNMENTS,
        index < 2,
    ensures
        r == vector_of(slot as int, index as int),
{
    DEVICE_VECTOR_FIRST + (slot * PCI_DEVICE_INTERRUPT_COUNT + index) as u8
}

/// Every physical device vector is in its range, and no two interrupts of the
/// table share one.
pub proof fn law_physical_vectors_are_disjoint(slot: int, index: int, slot2: int, index2: int)
    requires
        0 <= slot < MAX_ASSIGNMENTS,
        0 <= slot2 < MAX_ASSIGNMENTS,
        0 <= index < 2,
        0 <= index2 < 2,
    ensures
        DEVICE_VECTOR_FIRST <= vector_of(slot, index) <= DEVICE_VECTOR_LAST,
        vector_of(slot, index) == vector_of(slot2, index2) ==> slot == slot2 && index == index2,
{
}

/// A vector that a guest may use for a device: none that the APIC timer and the
/// event channels use.
pub open spec fn is_guest_vector(vector: u8) -> bool {
    0x20 <= vector <= 0xef && vector != 0x40 && vector != 0x41
}

pub open spec fn guest_vectors_valid(vectors: Seq<u8>, count: int) -> bool {
    ||| count == 1 && is_guest_vector(vectors[0]) && vectors[1] == 0
    ||| count == 2 && is_guest_vector(vectors[0]) && is_guest_vector(vectors[1]) && vectors[0]
        != vectors[1]
}

fn guest_vector_valid(vector: u8) -> (r: bool)
    ensures
        r == is_guest_vector(vector),
{
    vector >= 0x20 && vector <= 0xef && vector != 0x40 && vector != 0x41
}

/// Whether the guest named exactly `count` different usable vectors.
pub fn valid_guest_vectors(vectors: &[u8; 2], count: usize) -> (r: bool)
    ensures
        r == guest_vectors_valid(vectors@, count as int),
{
    if count == 1 {
        guest_vector_valid(vectors[0]) && vectors[1] == 0
    } else if count == 2 {
        guest_vector_valid(vectors[0]) && guest_vector_valid(vectors[1]) && vectors[0] != vectors[1]
    } else {
        false
    }
}

pub open spec fn mode_for(msix_table_entries: int, has_msi: bool) -> Option<PciInterruptMode> {
    if msix_table_entries >= 2 {
        Some(PciInterruptMode::MsixSplit)
    } else if msix_table_entries == 1 {
        Some(PciInterruptMode::MsixShared)
    } else if has_msi {
        Some(PciInterruptMode::Msi)
    } else {
        None
    }
}

/// Prefers two table entries, then one, then a plain message.
pub fn select_interrupt_mode(
    msix_table_entries: usize,
    has_msi: bool,
) -> (r: Option<PciInterruptMode>)
    ensures
        r == mode_for(msix_table_entries as int, has_msi),
{
    if msix_table_entries >= PCI_DEVICE_INTERRUPT_COUNT {
        Some(PciInterruptMode::MsixSplit)
    } else if msix_table_entries == 1 {
        Some(PciInterruptMode::MsixShared)
    } else if has_msi {
        Some(PciInterruptMode::Msi)
    } else {
        None
    }
}

/// How many entries the MSI-X table has, from its control word.
pub open spec fn msix_entries(control: u16) -> int {
    (control & MSIX_TABLE_SIZE) + 1
}

pub open spec fn interrupt_mode_of(
    descriptor: PciDescriptor,
    msix_control: u16,
) -> Result<PciInterruptMode, PciError> {
    let entries = if descriptor.msix_capability != 0 {
        msix_entries(msix_control)
    } else {
        0
    };
    match mode_for(entries, descriptor.msi_capability != 0) {
        Some(mode) => Ok(mode),
        None => Err(PciError::InterruptUnavailable),
    }
}

/// How the function will signal. `msix_control` is the control word of its
/// MSI-X capability, if it has one.
pub fn interrupt_mode(
    descriptor: &PciDescriptor,
    msix_control: u16,
) -> (r: Result<PciInterruptMode, PciError>)
    ensures
        r == interrupt_mode_of(*descriptor, msix_control),
{
    let entries: usize = if descriptor.msix_capability != 0 {
        (msix_control & MSIX_TABLE_SIZE) as usize + 1
    } else {
        0
    };
    match select_interrupt_mode(entries, descriptor.msi_capability != 0) {
        Some(mode) => Ok(mode),
        None => Err(PciError::InterruptUnavailable),
    }
}

/// What has to happen before a function may signal its Domain.
#[derive(Clone, Copy, Debug, PartialEq, Eq)]
pub struct ActivationPlan {
    pub descriptor: PciDescriptor,
    pub activation: PciActivation,
    /// The pending bits to forget.
    pub pending_mask: u64,
}

/// The pending interrupts of the slots from `from` on, routed in slot order.
pub open spec fn routed(s: Seq<Assignment>, pending: u64, from: int) -> Seq<(u32, u8)>
    decreases s.len() - from,
{
    if from >= s.len() {
        Seq::empty()
    } else {
        routed_slot(s[from], pending, from) + routed(s, pending, from + 1)
    }
}

/// The pending interrupts of one slot.
pub open spec fn routed_slot(a: Assignment, pending: u64, slot: int) -> Seq<(u32, u8)> {
    let first = if is_pending(a, pending, slot, 0) {
        seq![(a.domain_id, a.guest_vectors@[0])]
    } else {
        Seq::empty()
    };
    let second = if is_pending(a, pending, slot, 1) {
        seq![(a.domain_id, a.guest_vectors@[1])]
    } else {
        Seq::empty()
    };
    first + second
}

/// Whether interrupt `index` of an active assignment is pending.
pub open spec fn is_pending(a: Assignment, pending: u64, slot: int, index: int) -> bool {
    &&& a.valid
    &&& a.active
    &&& index < a.interrupt_count
    &&& pending & (1u64 << ((2 * slot + index) as u64)) != 0
}

impl AssignmentTable {
    /// What a Domain learns of BAR `index` of a function that it owns. The values are
    /// handed out as they are; whether they make sense to the receiver is not judged here.
    pub fn resource(
        &self,
        domain_id: u32,
        requester: u16,
        index: usize,
    ) -> (r: Option<PciDeviceResource>)
        requires
            self.wf(),
        ensures
            r == ({
                let slot = slot_of(self@, domain_id, requester, 0);
                if slot < 32 && index < self@[slot].descriptor.bar_count {
                    let bar = self@[slot].descriptor.bars@[index as int];
                    Some(
                        PciDeviceResource {
                            requester,
                            bar_index: bar.index,
                            kind: PCI_RESOURCE_KIND_MMIO,
                            flags: PCI_RESOURCE_FLAG_READABLE | PCI_RESOURCE_FLAG_WRITABLE,
                            guest_address: bar.guest_address,
                            length: bar.length,
                        },
                    )
                } else {
                    None
                }
            }),
    {
        let slot: usize = self.find(domain_id, requester);
        if slot >= 32 || index >= self.assignments[slot].descriptor.bar_count {
            return None;
        }
        let bar = self.assignments[slot].descriptor.bars[index];
        Some(
            PciDeviceResource {
                requester,
                bar_index: bar.index,
                kind: PCI_RESOURCE_KIND_MMIO,
                flags: PCI_RESOURCE_FLAG_READABLE | PCI_RESOURCE_FLAG_WRITABLE,
                guest_address: bar.guest_address,
                length: bar.length,
            },
        )
    }

    /// The configuration address that a Domain's read selects, if the function is
    /// its own and the offset is one of a double word.
    pub fn config_read(
        &self,
        domain_id: u32,
        requester: u16,
        offset: u16,
    ) -> (r: Result<u32, PciError>)
        ensures
            r == (if slot_of(self@, domain_id, requester, 0) >= 32 || offset > 0xfc || offset % 4
                != 0 {
                Err(PciError::InvalidState)
            } else if requester == 0 {
                Err(PciError::InvalidRequester)
            } else {
                Ok(
                    config_address_of(
                        (requester >> 8) as u8,
                        ((requester >> 3) & 0x1f) as u8,
                        (requester & 7) as u8,
                        offset as u8,
                    ),
                )
            }),
    {
        if self.find(domain_id, requester) >= 32 {
            return Err(PciError::InvalidState);
        }
        if offset > 0xfc || offset % 4 != 0 {
            return Err(PciError::InvalidState);
        }
        let (bus, device, function) = requester_parts(requester)?;
        Ok(config_address(bus, device, function, offset as u8))
    }

    /// Plans the activation of a function that its Domain has claimed.
    pub fn plan_activation(
        &self,
        domain_id: u32,
        requester: u16,
        guest_vectors: [u8; 2],
        msix_control: u16,
    ) -> (r: Result<ActivationPlan, PciError>)
        requires
            self.wf(),
        ensures
            ({
                let slot = slot_of(self@, domain_id, requester, 0);
                if slot >= 32 || self@[slot].active {
                    r matches Err(e) && e == PciError::InvalidState
                } else {
                    match interrupt_mode_of(self@[slot].descriptor, msix_control) {
                        Err(e) => r matches Err(f) && f == e,
                        Ok(mode) => if !guest_vectors_valid(guest_vectors@, mode.count()) {
                            r matches Err(e) && e == PciError::InvalidState
                        } else {
                            r matches Ok(plan) && plan.descriptor == self@[slot].descriptor
                                && plan.activation.mode == mode
                                && plan.activation.physical_vectors@[0] == vector_of(slot, 0)
                                && plan.activation.physical_vectors@[1] == vector_of(slot, 1)
                                && plan.pending_mask == slot_pending_mask(slot)
                        },
                    }
                }
            }),
    {
        let slot: usize = self.find(domain_id, requester);
        if slot >= 32 || self.assignments[slot].active {
            return Err(PciError::InvalidState);
        }
        let descriptor = self.assignments[slot].descriptor;
        let mode = interrupt_mode(&descriptor, msix_control)?;
        if !valid_guest_vectors(&guest_vectors, mode.interrupt_count()) {
            return Err(PciError::InvalidState);
        }
        let physical_vectors: [u8; 2] = [physical_vector(slot, 0), physical_vector(slot, 1)];
        let pending_mask: u64 = 0b11u64 << (2 * slot as u64);
        Ok(
            ActivationPlan {
                descriptor,
                activation: PciActivation { physical_vectors, mode },
                pending_mask,
            },
        )
    }

    /// Records that a function now signals its Domain.
    pub fn activate(
        &mut self,
        domain_id: u32,
        requester: u16,
        guest_vectors: [u8; 2],
        mode: PciInterruptMode,
    ) -> (r: Result<(), PciError>)
        requires
            old(self).wf(),
        ensures
            final(self).wf(),
            ({
                let slot = slot_of(old(self)@, domain_id, requester, 0);
                if slot >= 32 || old(self)@[slot].active {
                    r == Err::<(), PciError>(PciError::InvalidState) && final(self)@ == old(self)@
                } else {
                    r is Ok && final(self)@ == old(self)@.update(
                        slot,
                        Assignment {
                            active: true,
                            guest_vectors,
                            interrupt_count: mode.count() as u8,
                            ..old(self)@[slot]
                        },
                    )
                }
            }),
    {
        let slot: usize = self.find(domain_id, requester);
        if slot >= 32 || self.assignments[slot].active {
            return Err(PciError::InvalidState);
        }
        let mut assignment = self.assignments[slot];
        assignment.active = true;
        assignment.guest_vectors = guest_vectors;
        assignment.interrupt_count = mode.interrupt_count() as u8;
        self.assignments[slot] = assignment;
        assert(self@ =~= old(self)@.update(slot as int, assignment));
        Ok(())
    }

    /// The function to silence before its assignment becomes inactive, and the
    /// pending bits to forget.
    pub fn plan_deactivation(
        &self,
        domain_id: u32,
        requester: u16,
    ) -> (r: Result<(PciDescriptor, u64), PciError>)
        ensures
            ({
                let slot = slot_of(self@, domain_id, requester, 0);
                if slot >= 32 {
                    r matches Err(e) && e == PciError::InvalidState
                } else {
                    r matches Ok(plan) && plan.0 == self@[slot].descriptor && plan.1
                        == slot_pending_mask(slot)
                }
            }),
    {
        let slot: usize = self.find(domain_id, requester);
        if slot >= 32 {
            return Err(PciError::InvalidState);
        }
        Ok((self.assignments[slot].descriptor, 0b11u64 << (2 * slot as u64)))
    }

    /// Records that a silenced function signals nobody, and gives its BARs.
    pub fn deactivate(
        &mut self,
        domain_id: u32,
        requester: u16,
    ) -> (r: Result<[PciBar; 6], PciError>)
        requires
            old(self).wf(),
        ensures
            final(self).wf(),
            ({
                let slot = slot_of(old(self)@, domain_id, requester, 0);
                if slot >= 32 {
                    r matches Err(e) && e == PciError::InvalidState && final(self)@ == old(self)@
                } else {
                    &&& r matches Ok(bars)
                    &&& bars@ == old(self)@[slot].descriptor.bars@
                    &&& final(self)@ == old(self)@.update(slot, final(self)@[slot])
                    &&& final(self)@[slot] == (Assignment {
                        active: false,
                        guest_vectors: final(self)@[slot].guest_vectors,
                        interrupt_count: 0,
                        ..old(self)@[slot]
                    })
                    &&& final(self)@[slot].guest_vectors@ == seq![0u8, 0u8]
                }
            }),
    {
        let slot: usize = self.find(domain_id, requester);
        if slot >= 32 {
            return Err(PciError::InvalidState);
        }
        let mut assignment = self.assignments[slot];
        let bars = assignment.descriptor.bars;
        let cleared: [u8; 2] = [0; 2];
        assert(cleared@ =~= seq![0u8, 0u8]);
        assignment.active = false;
        assignment.guest_vectors = cleared;
        assignment.interrupt_count = 0;
        self.assignments[slot] = assignment;
        assert(self@ =~= old(self)@.update(slot as int, assignment));
        Ok(bars)
    }

    /// Forgets the assignment of a function that does not signal.
    pub fn remove(&mut self, domain_id: u32, requester: u16) -> (r: Result<(), PciError>)
        requires
            old(self).wf(),
        ensures
            final(self).wf(),
            ({
                let slot = slot_of(old(self)@, domain_id, requester, 0);
                if slot >= 32 || old(self)@[slot].active {
                    r == Err::<(), PciError>(PciError::InvalidState) && final(self)@ == old(self)@
                } else {
                    &&& r is Ok
                    &&& final(self)@ == old(self)@.update(slot, final(self)@[slot])
                    &&& is_vacant(final(self)@[slot])
                }
            }),
    {
        let slot: usize = self.find(domain_id, requester);
        if slot >= 32 || self.assignments[slot].active {
            return Err(PciError::InvalidState);
        }
        let empty = Assignment::default();
        self.assignments[slot] = empty;
        assert(self@ =~= old(self)@.update(slot as int, empty));
        Ok(())
    }

    /// Which Domain gets which vector for each pending bit.
    pub fn route_pending(&self, pending: u64) -> (r: Vec<(u32, u8)>)
        requires
            self.wf(),
        ensures
            r@ == routed(self@, pending, 0),
    {
        let mut out: Vec<(u32, u8)> = Vec::new();
        let mut slot: usize = 0;
        while slot < 32
            invariant
                slot <= 32,
                self.wf(),
                out@ + routed(self@, pending, slot as int) == routed(self@, pending, 0),
            decreases 32 - slot,
        {
            let assignment = self.assignments[slot];
            let ghost before = out@;
            let live = assignment.valid && assignment.active;
            if live && assignment.interrupt_count > 0 && pending & (1u64 << (2 * slot as u64)) != 0 {
                out.push((assignment.domain_id, assignment.guest_vectors[0]));
            }
            if live && assignment.interrupt_count > 1 && pending & (1u64 << (2 * slot as u64 + 1))
                != 0 {
                out.push((assignment.domain_id, assignment.guest_vectors[1]));
            }
            assert(out@ =~= before + routed_slot(self@[slot as int], pending, slot as int));
            slot += 1;
            assert(out@ + routed(self@, pending, slot as int) =~= before + routed(
                self@,
                pending,
                slot - 1,
            ));
        }
        assert(out@ =~= routed(self@, pending, 0));
        out
    }

    pub fn has_active(&self) -> (r: bool)
        ensures
            r == exists|i: int| 0 <= i < 32 && (#[trigger] self@[i]).valid && self@[i].active,
    {
        let mut i: usize = 0;
        while i < 32
            invariant
                i <= 32,
                forall|j: int| 0 <= j < i ==> !((#[trigger] self@[j]).valid && self@[j].active),
            decreases 32 - i,
        {
            if self.assignments[i].valid && self.assignments[i].active {
                assert(self@[i as int].valid && self@[i as int].active);
                return true;
            }
            i += 1;
        }
        false
    }

    pub fn has_active_for_domain(&self, domain_id: u32) -> (r: bool)
        ensures
            r == exists|i: int|
                0 <= i < 32 && (#[trigger] self@[i]).valid && self@[i].active && self@[i].domain_id
                    == domain_id,
    {
        let mut i: usize = 0;
        while i < 32
            invariant
                i <= 32,
                forall|j: int|
                    0 <= j < i ==> !((#[trigger] self@[j]).valid && self@[j].active
                        && self@[j].domain_id == domain_id),
            decreases 32 - i,
        {
            if self.assignments[i].valid && self.assignments[i].active
                && self.assignments[i].domain_id == domain_id {
                assert(self@[i as int].valid && self@[i as int].active);
                return true;
            }
            i += 1;
        }
        false
    }
}

/// A function belongs to one Domain only: where two Domains hold the same
/// requester, they are the same Domain.
pub proof fn law_function_has_one_owner(
    s: Seq<Assignment>,
    domain_a: u32,
    domain_b: u32,
    requester: u16,
)
    requires
        assignments_wf(s),
        slot_of(s, domain_a, requester, 0) < 32,
        slot_of(s, domain_b, requester, 0) < 32,
    ensures
        domain_a == domain_b,
{
    lemma_slot_of(s, domain_a, requester, 0);
    lemma_slot_of(s, domain_b, requester, 0);
    let i = slot_of(s, domain_a, requester, 0);
    let j = slot_of(s, domain_b, requester, 0);
    assert(s[i].valid && s[j].valid);
}

/// The slot that is found holds the function.
pub proof fn lemma_slot_of(s: Seq<Assignment>, domain_id: u32, requester: u16, from: int)
    requires
        0 <= from <= s.len(),
    ensures
        from <= slot_of(s, domain_id, requester, from) <= s.len(),
        slot_of(s, domain_id, requester, from) < s.len() ==> is_assigned(
            s[slot_of(s, domain_id, requester, from)],
            domain_id,
            requester,
        ),
    decreases s.len() - from,
{
    if from < s.len() && !is_assigned(s[from], domain_id, requester) {
        lemma_slot_of(s, domain_id, requester, from + 1);
    }
}

/// Pending interrupts reach only Domains that own an active function, and only
/// with a vector that the Domain registered for it.
pub proof fn law_only_active_assignments_are_routed(
    s: Seq<Assignment>,
    pending: u64,
    from: int,
    i: int,
)
    requires
        0 <= from <= s.len(),
        0 <= i < routed(s, pending, from).len(),
    ensures
        exists|slot: int, index: int|
            from <= slot < s.len() && 0 <= index < 2 && #[trigger] is_pending(
                s[slot],
                pending,
                slot,
                index,
            ) && routed(s, pending, from)[i] == (s[slot].domain_id, s[slot].guest_vectors@[index]),
    decreases s.len() - from,
{
    if from < s.len() {
        let head = routed_slot(s[from], pending, from);
        if i < head.len() {
            let index: int = if i == 0 && is_pending(s[from], pending, from, 0) {
                0
            } else {
                1
            };
            assert(is_pending(s[from], pending, from, index));
        } else {
            law_only_active_assignments_are_routed(s, pending, from + 1, i - head.len());
            let (slot, index) = choose|slot: int, index: int|
                from + 1 <= slot < s.len() && 0 <= index < 2 && #[trigger] is_pending(
                    s[slot],
                    pending,
                    slot,
                    index,
                ) && routed(s, pending, from + 1)[i - head.len()] == (
                    s[slot].domain_id,
                    s[slot].guest_vectors@[index],
                );
            assert(is_pending(s[slot], pending, slot, index));
        }
    }
}

/// Splits a requester into bus, device and function. Requester zero is the host
/// bridge and is never handed out.
pub fn requester_parts(requester: u16) -> (r: Result<(u8, u8, u8), PciError>)
    ensures
        r == (if requester == 0 {
            Err(PciError::InvalidRequester)
        } else {
            Ok(
                (
                    (requester >> 8) as u8,
                    ((requester >> 3) & 0x1f) as u8,
                    (requester & 7) as u8,
                ),
            )
        }),
{
    if requester == 0 {
        return Err(PciError::InvalidRequester);
    }
    Ok(((requester >> 8) as u8, ((requester >> 3) & 0x1f) as u8, (requester & 7) as u8))
}

pub open spec fn requester_of(bus: u8, device: u8, function: u8) -> u16 {
    ((bus as u16) << 8) | ((device as u16) << 3) | (function as u16)
}

pub fn requester_id(bus: u8, device: u8, function: u8) -> (r: u16)
    ensures
        r == requester_of(bus, device, function),
{
    ((bus as u16) << 8) | ((device as u16) << 3) | (function as u16)
}

/// A requester and its bus, device and function determine each other: eight bits of bus,
/// five of device and three of function, from the top down.
pub proof fn law_requester_parts_are_inverse(requester: u16, bus: u8, device: u8, function: u8)
    requires
        device < 32,
        function < 8,
    ensures
        requester_of(
            (requester >> 8) as u8,
            ((requester >> 3) & 0x1f) as u8,
            (requester & 7) as u8,
        ) == requester,
        ({
            let id = requester_of(bus, device, function);
            &&& (id >> 8) as u8 == bus
            &&& ((id >> 3) & 0x1f) as u8 == device
            &&& (id & 7) as u8 == function
            &&& id == 0x100 * bus + 8 * device + function
        }),
        requester >> 8 == requester / 0x100,
        (requester >> 3) & 0x1f == requester / 8 % 0x20,
        requester & 7 == requester % 8,
{
    assert({
        let id = ((bus as u16) << 8) | ((device as u16) << 3) | (function as u16);
        &&& (id >> 8) as u8 == bus
        &&& ((id >> 3) & 0x1f) as u8 == device
        &&& (id & 7) as u8 == function
        &&& id == 0x100 * bus + 8 * device + function
        &&& (((requester >> 8) as u8 as u16) << 8) | ((((requester >> 3) & 0x1f) as u8 as u16) << 3)
            | ((requester & 7) as u8 as u16) == requester
        &&& requester >> 8 == requester / 0x100
        &&& (requester >> 3) & 0x1f == requester / 8 % 0x20
        &&& requester & 7 == requester % 8
    }) by (bit_vector)
        requires
            device < 32,
            function < 8,
    ;
}

pub open spec fn config_address_of(bus: u8, device: u8, function: u8, offset: u8) -> u32 {
    0x8000_0000u32 | ((bus as u32) << 16) | ((device as u32) << 11) | ((function as u32) << 8) | ((
    offset as u32) & 0xfc)
}

/// The value that selects a configuration register.
pub fn config_address(bus: u8, device: u8, function: u8, offset: u8) -> (r: u32)
    ensures
        r == config_address_of(bus, device, function, offset),
{
    0x8000_0000u32 | ((bus as u32) << 16) | ((device as u32) << 11) | ((function as u32) << 8) | ((
    offset as u32) & 0xfc)
}

/// The value that selects a configuration register: bit 31, the bus from bit 16, the device
/// from bit 11, the function from bit 8 and the offset of the double word. The bits of a
/// slot in a pending word are the two that its vectors have from 0x50 on.
pub proof fn law_config_addresses_are_laid_out(
    bus: u8,
    device: u8,
    function: u8,
    offset: u8,
    slot: u64,
)
    requires
        device < 32,
        function < 8,
        slot < 32,
    ensures
        config_address_of(bus, device, function, offset) == 0x8000_0000 + 0x1_0000 * bus + 0x800
            * device + 0x100 * function + (offset - offset % 4),
        slot_pending_mask(slot as int) == (1u64 << (2 * slot) as u64) | (1u64 << (2 * slot + 1)
            as u64),
        vector_of(slot as int, 0) == 0x50 + 2 * slot,
        vector_of(slot as int, 1) == 0x51 + 2 * slot,
{
    let first = (2 * slot) as u64;
    let second = (2 * slot + 1) as u64;
    assert(0x8000_0000u32 | ((bus as u32) << 16) | ((device as u32) << 11) | ((function as u32) << 8)
        | ((offset as u32) & 0xfc) == 0x8000_0000 + 0x1_0000 * bus + 0x800 * device + 0x100
        * function + (offset - offset % 4) && 0b11u64 << first == (1u64 << first) | (1u64 << second))
        by (bit_vector)
        requires
            device < 32,
            function < 8,
            first < 63,
            second == first + 1,
    ;
}

/// Every interrupt that is pending reaches its Domain: where the bit of interrupt `index` of
/// a slot is set, and the slot holds an active function with that many interrupts, its
/// Domain gets the vector that it registered for it.
pub proof fn law_every_pending_interrupt_is_routed(
    s: Seq<Assignment>,
    pending: u64,
    from: int,
    slot: int,
    index: int,
)
    requires
        0 <= from <= slot < s.len(),
        0 <= index < 2,
        s[slot].valid,
        s[slot].active,
        index < s[slot].interrupt_count,
        pending & (1u64 << ((2 * slot + index) as u64)) != 0,
    ensures
        routed(s, pending, from).contains((s[slot].domain_id, s[slot].guest_vectors@[index])),
    decreases slot - from,
{
    let head = routed_slot(s[from], pending, from);
    let rest = routed(s, pending, from + 1);
    let wanted = (s[slot].domain_id, s[slot].guest_vectors@[index]);
    if from == slot {
        assert(is_pending(s[slot], pending, slot, index));
        let k: int = if index == 1 && is_pending(s[slot], pending, slot, 0) {
            1
        } else {
            0
        };
        assert(head[k] == wanted);
        assert((head + rest)[k] == wanted);
    } else {
        law_every_pending_interrupt_is_routed(s, pending, from + 1, slot, index);
        let k = choose|k: int| 0 <= k < rest.len() && rest[k] == wanted;
        assert((head + rest)[head.len() + k] == wanted);
    }
}

/// A function is found for a Domain exactly where a slot holds it for that Domain, and then
/// in the first such slot.
pub proof fn law_function_is_found_for_its_domain(
    s: Seq<Assignment>,
    domain_id: u32,
    requester: u16,
    from: int,
)
    requires
        0 <= from <= s.len(),
    ensures
        slot_of(s, domain_id, requester, from) == s.len() <==> forall|i: int|
            from <= i < s.len() ==> !((#[trigger] s[i]).valid && s[i].domain_id == domain_id
                && s[i].descriptor.requester == requester),
        slot_of(s, domain_id, requester, from) < s.len() ==> {
            let a = s[slot_of(s, domain_id, requester, from)];
            a.valid && a.domain_id == domain_id && a.descriptor.requester == requester
        },
        from <= slot_of(s, domain_id, requester, from) <= s.len(),
    decreases s.len() - from,
{
    lemma_slot_of(s, domain_id, requester, from);
    if from < s.len() && !is_assigned(s[from], domain_id, requester) {
        law_function_is_found_for_its_domain(s, domain_id, requester, from + 1);
    }
}

/// A function is entered for a Domain exactly where both are real, it decodes memory, the
/// window is whole pages and ends in the address space, nobody holds the function, a slot is
/// free and every BAR lies in the window. Its BARs then appear where the firmware put them.
pub proof fn law_function_is_entered_where_it_fits(
    s: Seq<Assignment>,
    domain_id: u32,
    descriptor: PciDescriptor,
    window_start: u64,
    window_size: u64,
)
    ensures
        insert_error(s, domain_id, descriptor, window_start, window_size) is None <==> {
            &&& domain_id != 0 && descriptor.requester != 0 && descriptor.bar_count != 0
            &&& window_start % 0x1000 == 0 && window_size % 0x1000 == 0 && window_size > 0
            &&& window_start + window_size <= u64::MAX
            &&& forall|i: int|
                0 <= i < s.len() ==> !((#[trigger] s[i]).valid && s[i].descriptor.requester
                    == descriptor.requester)
            &&& exists|i: int| 0 <= i < s.len() && !(#[trigger] s[i]).valid
            &&& forall|i: int|
                0 <= i < descriptor.bar_count ==> window_start <= (
                #[trigger] descriptor.bars@[i]).physical_address
                    && descriptor.bars@[i].physical_address + descriptor.bars@[i].length
                    <= window_start + window_size
        },
        forall|i: int|
            0 <= i < descriptor.used_bars().len() ==> {
                let seen = #[trigger] identity_bars(descriptor.used_bars())[i];
                let bar = descriptor.used_bars()[i];
                seen.guest_address == bar.physical_address && seen.physical_address
                    == bar.physical_address && seen.length == bar.length && seen.index == bar.index
            },
{
    lemma_free_slot(s, 0);
    lemma_taken_slots(s, 0);
    let slot = free_slot(s, 0);
    if slot < s.len() {
        assert(!s[slot].valid);
    }
    if forall|i: int|
        0 <= i < s.len() ==> !((#[trigger] s[i]).valid && s[i].descriptor.requester
            == descriptor.requester) {
        assert forall|i: int| 0 <= i < s.len() implies !holds_requester(
            #[trigger] s[i],
            descriptor.requester,
        ) by {}
    }
    if forall|i: int|
        0 <= i < descriptor.bar_count ==> window_start <= (
        #[trigger] descriptor.bars@[i]).physical_address && descriptor.bars@[i].physical_address
            + descriptor.bars@[i].length <= window_start + window_size {
        assert forall|i: int| 0 <= i < descriptor.bar_count implies bar_in_window(
            #[trigger] descriptor.bars@[i],
            window_start as int,
            window_size as int,
        ) by {}
    }
    if insert_error(s, domain_id, descriptor, window_start, window_size) is None {
        assert forall|i: int| 0 <= i < s.len() implies !((
        #[trigger] s[i]).valid && s[i].descriptor.requester == descriptor.requester) by {
            assert(!holds_requester(s[i], descriptor.requester));
        }
        assert forall|i: int| 0 <= i < descriptor.bar_count implies window_start <= (
        #[trigger] descriptor.bars@[i]).physical_address && descriptor.bars@[i].physical_address
            + descriptor.bars@[i].length <= window_start + window_size by {
            assert(bar_in_window(
                descriptor.bars@[i],
                window_start as int,
                window_size as int,
            ));
        }
    }
}

proof fn lemma_taken_slots(s: Seq<Assignment>, from: int)
    requires
        0 <= from <= s.len(),
    ensures
        forall|i: int| from <= i < free_slot(s, from) ==> (#[trigger] s[i]).valid,
    decreases s.len() - from,
{
    if from < s.len() && s[from].valid {
        lemma_taken_slots(s, from + 1);
    }
}

/// How a function signals: with two table entries where its table has two, with one where it
/// has one, with a plain message where it has no table, and else not at all. A table has one
/// entry more than the low eleven bits of its control word say.
pub proof fn law_interrupts_use_the_best_way(descriptor: PciDescriptor, control: u16)
    ensures
        descriptor.msix_capability != 0 && control & 0x7ff >= 1 ==> interrupt_mode_of(
            descriptor,
            control,
        ) == Ok::<PciInterruptMode, PciError>(PciInterruptMode::MsixSplit),
        descriptor.msix_capability != 0 && control & 0x7ff == 0 ==> interrupt_mode_of(
            descriptor,
            control,
        ) == Ok::<PciInterruptMode, PciError>(PciInterruptMode::MsixShared),
        descriptor.msix_capability == 0 && descriptor.msi_capability != 0 ==> interrupt_mode_of(
            descriptor,
            control,
        ) == Ok::<PciInterruptMode, PciError>(PciInterruptMode::Msi),
        descriptor.msix_capability == 0 && descriptor.msi_capability == 0 ==> interrupt_mode_of(
            descriptor,
            control,
        ) == Err::<PciInterruptMode, PciError>(PciError::InterruptUnavailable),
        msix_entries(control) == (control & 0x7ff) + 1,
        PciInterruptMode::MsixSplit.count() == 2,
        PciInterruptMode::MsixShared.count() == 1,
        PciInterruptMode::Msi.count() == 1,
{
}

/// A guest registers one vector for each interrupt, all different, between 0x20 and 0xef
/// and none of the two that mBoot uses itself (0x40 and 0x41); where there is one interrupt
/// the second place is zero.
pub proof fn law_guest_vectors_are_its_own(first: u8, second: u8)
    ensures
        guest_vectors_valid(seq![first, second], 1) <==> 0x20 <= first < 0xf0 && first != 0x40
            && first != 0x41 && second == 0,
        guest_vectors_valid(seq![first, second], 2) <==> 0x20 <= first < 0xf0 && first != 0x40
            && first != 0x41 && 0x20 <= second < 0xf0 && second != 0x40 && second != 0x41 && first
            != second,
        !guest_vectors_valid(seq![first, second], 0),
        !guest_vectors_valid(seq![first, second], 3),
{
}

} // verus!
