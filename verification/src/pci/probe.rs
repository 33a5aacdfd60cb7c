//! What the configuration space of a function says about it.

use vstd::prelude::*;

use crate::bits::lemma_negation;
use crate::bytes::{read_u16, read_u32, u16_at, u32_at};
use super::{
    empty_bar, PciBar, PciDescriptor, PciError, CAPABILITY_MSI, CAPABILITY_MSIX, CAPABILITY_PCIE,
    COMMAND_BUS_MASTER, COMMAND_DECODING, COMMAND_INTERRUPT_DISABLE, INTEL_GRAPHICS_REQUESTER,
    INTEL_MEMORY_BASE_MASK, INTEL_VENDOR_ID, MAX_DEVICE_BARS, MAX_INTEL_STOLEN_MEMORY,
    STATUS_CAPABILITIES,
};

verus! {

/// The 256 bytes of a function's configuration space.
pub struct ConfigSpace {
    bytes: [u8; 256],
}

impl View for ConfigSpace {
    type V = Seq<u8>;

    closed spec fn view(&self) -> Seq<u8> {
        self.bytes@
    }
}

impl ConfigSpace {
    pub fn new(bytes: [u8; 256]) -> (r: Self)
        ensures
            r@ == bytes@,
    {
        ConfigSpace { bytes }
    }

    pub fn byte(&self, offset: u8) -> (r: u8)
        ensures
            r == self@[offset as int],
            self@.len() == 256,
    {
        self.bytes[offset as usize]
    }

    pub fn half(&self, offset: u8) -> (r: u16)
        requires
            offset <= 254,
        ensures
            r == u16_at(self@, offset as int),
    {
        read_u16(&self.bytes, offset as usize).unwrap()
    }

    pub fn word(&self, offset: u8) -> (r: u32)
        requires
            offset <= 252,
        ensures
            r == u32_at(self@, offset as int),
    {
        read_u32(&self.bytes, offset as usize).unwrap()
    }
}

/// How many capability offsets have not been visited yet.
pub open spec fn unvisited(visited: Seq<bool>, n: int) -> nat
    decreases n,
{
    if n <= 0 {
        0
    } else {
        unvisited(visited, n - 1) + (if visited[n - 1] {
            0nat
        } else {
            1
        })
    }
}

/// Visiting one more offset leaves one fewer.
pub proof fn lemma_visit(visited: Seq<bool>, at: int, n: int)
    requires
        0 <= at < visited.len(),
        0 <= n <= visited.len(),
        !visited[at],
    ensures
        unvisited(visited.update(at, true), n) == unvisited(visited, n) - (if at < n {
            1int
        } else {
            0
        }),
    decreases n,
{
    if n > 0 {
        lemma_visit(visited, at, n - 1);
    }
}

/// How many bytes a capability occupies.
pub open spec fn capability_size(kind: u8) -> int {
    if kind == CAPABILITY_MSI {
        0x14
    } else if kind == CAPABILITY_MSIX {
        0x08
    } else if kind == CAPABILITY_PCIE {
        0x0a
    } else {
        0x02
    }
}

/// A pointer in the capability list; its two low bits mean nothing.
pub open spec fn list_pointer(raw: u8) -> int {
    raw - raw % 4
}

/// Follows the capability list from `offset`: the offset of the wanted kind, zero
/// at the end of the list, and an error for a loop or a capability that does not
/// fit.
pub open spec fn walk_capabilities(
    config: Seq<u8>,
    wanted: u8,
    offset: int,
    visited: Seq<bool>,
) -> Result<u8, PciError>
    decreases unvisited(visited, 64),
    when visited.len() == 64 && 0 <= offset < 256
{
    proof {
        if offset >= 0x40 && !visited[offset / 4] {
            lemma_visit(visited, offset / 4, 64);
        }
    }
    if offset < 0x40 {
        Ok(0)
    } else if visited[offset / 4] {
        Err(PciError::InvalidState)
    } else if config[offset] == wanted {
        if offset + capability_size(wanted) > 0x100 {
            Err(PciError::InvalidState)
        } else {
            Ok(offset as u8)
        }
    } else {
        walk_capabilities(
            config,
            wanted,
            list_pointer(config[offset + 1]),
            visited.update(offset / 4, true),
        )
    }
}

/// The offset of a capability, or zero.
pub open spec fn capability_of(config: Seq<u8>, wanted: u8) -> Result<u8, PciError> {
    if u16_at(config, 6) & STATUS_CAPABILITIES == 0 {
        Ok(0)
    } else {
        walk_capabilities(
            config,
            wanted,
            list_pointer(config[0x34]),
            Seq::new(64, |i: int| false),
        )
    }
}

/// Finds a capability.
pub fn find_capability(config: &ConfigSpace, wanted: u8) -> (r: Result<u8, PciError>)
    ensures
        r == capability_of(config@, wanted),
        r matches Ok(offset) ==> offset == 0 || (0x40 <= offset && offset + capability_size(wanted)
            <= 0x100),
{
    if config.half(6) & STATUS_CAPABILITIES == 0 {
        return Ok(0);
    }
    let first: u8 = config.byte(0x34);
    let mut offset: u8 = first - first % 4;
    let mut visited: [bool; 64] = [false; 64];
    assert(visited@ =~= Seq::new(64, |i: int| false));
    while offset >= 0x40
        invariant
            u16_at(config@, 6) & STATUS_CAPABILITIES != 0,
            offset % 4 == 0,
            config@.len() == 256,
            visited@.len() == 64,
            capability_of(config@, wanted) == walk_capabilities(
                config@,
                wanted,
                offset as int,
                visited@,
            ),
        decreases unvisited(visited@, 64),
    {
        let at: usize = (offset / 4) as usize;
        if visited[at] {
            return Err(PciError::InvalidState);
        }
        proof {
            lemma_visit(visited@, at as int, 64);
        }
        visited[at] = true;
        if config.byte(offset) == wanted {
            let required: u16 = match wanted {
                CAPABILITY_MSI => 0x14,
                CAPABILITY_MSIX => 0x08,
                CAPABILITY_PCIE => 0x0a,
                _ => 0x02,
            };
            if offset as u16 + required > 0x100 {
                return Err(PciError::InvalidState);
            }
            return Ok(offset);
        }
        let next: u8 = config.byte(offset + 1);
        offset = next - next % 4;
    }
    Ok(0)
}

/// A BAR that decodes memory; the others are skipped.
pub open spec fn is_memory_bar(low: u32) -> bool {
    low != 0 && low != 0xffff_ffff && low & 1 == 0
}

/// The two type bits of a memory BAR.
pub open spec fn bar_kind(low: u32) -> u32 {
    (low >> 1) & 3
}

/// A power of two, as one bit that is set.
pub open spec fn is_power_of_two(n: u64) -> bool {
    n != 0 && n & ((n - 1) as u64) == 0
}

/// Where the BAR points.
pub open spec fn bar_address(low: u32, high: u32) -> u64 {
    ((high as u64) << 32) | ((low & 0xffff_fff0) as u64)
}

/// The bits of the BAR that can be written.
pub open spec fn bar_mask(mask_low: u32, mask_high: u32, is_64: bool) -> u64 {
    if is_64 {
        ((mask_high as u64) << 32) | ((mask_low & 0xffff_fff0) as u64)
    } else {
        ((mask_low & 0xffff_fff0) as u64) | 0xffff_ffff_0000_0000
    }
}

/// The size that a mask stands for: its two's complement.
pub open spec fn mask_length(mask: u64) -> u64 {
    if mask == 0 {
        0
    } else {
        (0x1_0000_0000_0000_0000 - mask) as u64
    }
}

/// A page-aligned range of at least a page, a power of two long, below 2^52.
pub open spec fn is_usable_bar(address: u64, length: u64) -> bool {
    &&& address != 0
    &&& address % 0x1000 == 0
    &&& length >= 0x1000
    &&& length % 0x1000 == 0
    &&& is_power_of_two(length)
    &&& address + length <= u64::MAX
    &&& address < 0x10_0000_0000_0000
}

/// BAR register `index` of the configuration space, or zero behind the last.
pub open spec fn bar_register(config: Seq<u8>, index: int) -> u32 {
    u32_at(config, 0x10 + 4 * index)
}

/// The memory BARs from register `index` on. `masks` are the values that the
/// registers show after all ones were written to them.
pub open spec fn bars_from(
    config: Seq<u8>,
    masks: Seq<u32>,
    index: int,
) -> Result<Seq<PciBar>, PciError>
    decreases 6 - index,
{
    let low = bar_register(config, index);
    let kind = bar_kind(low);
    let is_64 = kind == 2;
    let high = if is_64 {
        bar_register(config, index + 1)
    } else {
        0
    };
    let mask_high = if is_64 {
        masks[index + 1]
    } else {
        0
    };
    let address = bar_address(low, high);
    let length = mask_length(bar_mask(masks[index], mask_high, is_64));
    let bar = PciBar {
        index: index as u8,
        physical_address: address,
        length,
        guest_address: 0,
    };
    if index >= 6 {
        Ok(Seq::empty())
    } else if !is_memory_bar(low) {
        bars_from(config, masks, index + 1)
    } else if kind == 1 || (is_64 && index + 1 >= 6) {
        Err(PciError::UnsupportedBar)
    } else if !is_usable_bar(address, length) {
        Err(PciError::InvalidBar)
    } else {
        match bars_from(
            config,
            masks,
            index + (if is_64 {
                2int
            } else {
                1
            }),
        ) {
            Ok(rest) => Ok(seq![bar] + rest),
            Err(e) => Err(e),
        }
    }
}

/// What is wrong with the capabilities that a probe looks for.
pub open spec fn capability_error(config: Seq<u8>) -> Option<PciError> {
    let msi = capability_of(config, CAPABILITY_MSI);
    let msix = capability_of(config, CAPABILITY_MSIX);
    let pcie = capability_of(config, CAPABILITY_PCIE);
    if msi is Err {
        Some(msi->Err_0)
    } else if msix is Err {
        Some(msix->Err_0)
    } else if pcie is Err {
        Some(pcie->Err_0)
    } else {
        None
    }
}

/// What a probe finds, once the function has stopped decoding.
pub open spec fn description_error(config: Seq<u8>, masks: Seq<u32>) -> Option<PciError> {
    let msi = capability_of(config, CAPABILITY_MSI);
    let msix = capability_of(config, CAPABILITY_MSIX);
    let bars = bars_from(config, masks, 0);
    if capability_error(config) is Some {
        capability_error(config)
    } else if bars is Err {
        Some(bars->Err_0)
    } else if bars->Ok_0.len() == 0 || (msi->Ok_0 == 0 && msix->Ok_0 == 0) {
        Some(PciError::InterruptUnavailable)
    } else {
        None
    }
}

impl PciDescriptor {
    /// The descriptor names the function, its command and its capabilities.
    pub open spec fn has_capabilities(self, requester: u16, config: Seq<u8>) -> bool {
        &&& self.wf()
        &&& self.requester == requester
        &&& self.original_command == u16_at(config, 4)
        &&& capability_of(config, CAPABILITY_MSI) == Ok::<u8, PciError>(self.msi_capability)
        &&& capability_of(config, CAPABILITY_MSIX) == Ok::<u8, PciError>(self.msix_capability)
        &&& capability_of(config, CAPABILITY_PCIE) == Ok::<u8, PciError>(self.pcie_capability)
    }

    /// The descriptor says what the configuration space says.
    pub open spec fn describes(self, requester: u16, config: Seq<u8>, masks: Seq<u32>) -> bool {
        &&& self.has_capabilities(requester, config)
        &&& bars_from(config, masks, 0) == Ok::<Seq<PciBar>, PciError>(self.used_bars())
    }
}

/// Whether there is an endpoint to probe.
pub open spec fn endpoint_error(requester: u16, config: Seq<u8>) -> Option<PciError> {
    if requester == 0 || u16_at(config, 0) == 0xffff {
        Some(PciError::InvalidRequester)
    } else if config[0x0e] & 0x7f != 0 {
        Some(PciError::UnsupportedHeader)
    } else {
        None
    }
}

/// Whether the requester names a function with a Type-0 header.
pub fn check_endpoint(requester: u16, config: &ConfigSpace) -> (r: Result<(), PciError>)
    ensures
        r == (match endpoint_error(requester, config@) {
            Some(e) => Err::<(), PciError>(e),
            None => Ok(()),
        }),
{
    if requester == 0 || config.half(0) == 0xffff {
        return Err(PciError::InvalidRequester);
    }
    if config.byte(0x0e) & 0x7f != 0 {
        return Err(PciError::UnsupportedHeader);
    }
    Ok(())
}

/// The command that stops a function while its BARs are sized.
pub fn probing_command(original: u16) -> (r: u16)
    ensures
        r == original & !COMMAND_DECODING,
{
    original & !COMMAND_DECODING
}

/// The command that a probe leaves behind: decoding as before, but no bus
/// mastering and no interrupt line.
pub fn probed_command(original: u16) -> (r: u16)
    ensures
        r == (original & !COMMAND_BUS_MASTER) | COMMAND_INTERRUPT_DISABLE,
{
    (original & !COMMAND_BUS_MASTER) | COMMAND_INTERRUPT_DISABLE
}

/// A BAR whose registers are sized: all ones are written to them and read back, and
/// then what they held before.
#[derive(Clone, Copy, Debug, PartialEq, Eq, Structural)]
pub struct BarSizing {
    pub index: u8,
    /// The register behind it is its high half.
    pub wide: bool,
}

/// The first BAR from register `index` on that is sized: the first one that decodes
/// memory, unless it is of a kind that is refused.
pub open spec fn sizing_from(config: Seq<u8>, index: int) -> Option<BarSizing>
    decreases 6 - index,
{
    let kind = bar_kind(bar_register(config, index));
    if index >= 6 {
        None
    } else if !is_memory_bar(bar_register(config, index)) {
        sizing_from(config, index + 1)
    } else if kind == 1 || (kind == 2 && index + 1 >= 6) {
        None
    } else {
        Some(BarSizing { index: index as u8, wide: kind == 2 })
    }
}

/// Whether the BAR is accepted with the masks that its registers show.
pub open spec fn is_sized(config: Seq<u8>, masks: Seq<u32>, sizing: BarSizing) -> bool {
    let i = sizing.index as int;
    let high = if sizing.wide {
        bar_register(config, i + 1)
    } else {
        0
    };
    let mask_high = if sizing.wide {
        masks[i + 1]
    } else {
        0
    };
    is_usable_bar(
        bar_address(bar_register(config, i), high),
        mask_length(bar_mask(masks[i], mask_high, sizing.wide)),
    )
}

/// The register behind a BAR.
pub open spec fn behind(sizing: BarSizing) -> int {
    if sizing.wide {
        sizing.index + 2
    } else {
        sizing.index + 1
    }
}

/// The BAR that is sized after `last`: the first one behind it, unless `last` is
/// refused.
pub open spec fn sizing_after(
    config: Seq<u8>,
    masks: Seq<u32>,
    last: Option<BarSizing>,
) -> Option<BarSizing> {
    match last {
        None => sizing_from(config, 0),
        Some(sizing) => if is_sized(config, masks, sizing) {
            sizing_from(config, behind(sizing))
        } else {
            None
        },
    }
}

/// The BARs that are sized from register `index` on, in order, up to the first that is
/// refused.
pub open spec fn sizings(config: Seq<u8>, masks: Seq<u32>, index: int) -> Seq<BarSizing>
    decreases 6 - index,
    when 0 <= index
{
    proof {
        lemma_sizing_from(config, index);
    }
    match sizing_from(config, index) {
        None => Seq::empty(),
        Some(sizing) => if is_sized(config, masks, sizing) {
            seq![sizing] + sizings(config, masks, behind(sizing))
        } else {
            seq![sizing]
        },
    }
}

/// A BAR that is sized lies at or behind the register where the search began, and all of
/// it among the six.
pub proof fn lemma_sizing_from(config: Seq<u8>, index: int)
    requires
        0 <= index,
    ensures
        sizing_from(config, index) matches Some(sizing) ==> {
            &&& index <= sizing.index < 6
            &&& behind(sizing) <= 6
            &&& is_memory_bar(bar_register(config, sizing.index as int))
            &&& sizing.wide == (bar_kind(bar_register(config, sizing.index as int)) == 2)
            &&& bar_kind(bar_register(config, sizing.index as int)) != 1
            &&& forall|i: int|
                index <= i < sizing.index ==> !is_memory_bar(#[trigger] bar_register(config, i))
        },
    decreases 6 - index,
{
    if index < 6 && !is_memory_bar(bar_register(config, index)) {
        lemma_sizing_from(config, index + 1);
    }
}

/// Chooses the BAR to size after `last`. `masks` holds what was read from the
/// registers of `last`; no register is written that the walk does not come to.
pub fn next_sizing(
    config: &ConfigSpace,
    masks: &[u32; 6],
    last: Option<BarSizing>,
) -> (r: Option<BarSizing>)
    requires
        last matches Some(sizing) ==> sizing.index < 6 && behind(sizing) <= 6,
    ensures
        r == sizing_after(config@, masks@, last),
        r matches Some(sizing) ==> sizing.index < 6 && behind(sizing) <= 6,
{
    let mut index: u8 = 0;
    if let Some(sizing) = last {
        let low: u32 = config.word(0x10 + 4 * sizing.index);
        let (high, mask_high): (u32, u32) = if sizing.wide {
            (config.word(0x10 + 4 * (sizing.index + 1)), masks[sizing.index as usize + 1])
        } else {
            (0, 0)
        };
        if !bar_usable(low, high, masks[sizing.index as usize], mask_high, sizing.wide) {
            return None;
        }
        index = if sizing.wide {
            sizing.index + 2
        } else {
            sizing.index + 1
        };
    }
    while index < 6
        invariant
            index <= 6,
            sizing_after(config@, masks@, last) == sizing_from(config@, index as int),
        decreases 6 - index,
    {
        let low: u32 = config.word(0x10 + 4 * index);
        if low != 0 && low != 0xffff_ffff && low & 1 == 0 {
            let kind: u32 = (low >> 1) & 3;
            if kind == 1 || (kind == 2 && index + 1 >= 6) {
                return None;
            }
            return Some(BarSizing { index, wide: kind == 2 });
        }
        index += 1;
    }
    None
}

/// Whether a BAR with these registers and masks is accepted.
fn bar_usable(low: u32, high: u32, mask_low: u32, mask_high: u32, wide: bool) -> (r: bool)
    ensures
        r == is_usable_bar(
            bar_address(low, high),
            mask_length(bar_mask(mask_low, mask_high, wide)),
        ),
{
    let (address, length) = bar_range(low, high, mask_low, mask_high, wide);
    address != 0 && address % 0x1000 == 0 && length >= 0x1000 && length % 0x1000 == 0
        && power_of_two(length) && address.checked_add(length).is_some() && address
        < 0x10_0000_0000_0000
}

/// Where a BAR lies and how long it is.
fn bar_range(low: u32, high: u32, mask_low: u32, mask_high: u32, wide: bool) -> (r: (u64, u64))
    ensures
        r.0 == bar_address(low, high),
        r.1 == mask_length(bar_mask(mask_low, mask_high, wide)),
{
    let address: u64 = ((high as u64) << 32) | ((low & 0xffff_fff0) as u64);
    let mask: u64 = if wide {
        ((mask_high as u64) << 32) | ((mask_low & 0xffff_fff0) as u64)
    } else {
        ((mask_low & 0xffff_fff0) as u64) | 0xffff_ffff_0000_0000
    };
    proof {
        lemma_negation(mask);
    }
    (address, (!mask).wrapping_add(1))
}

fn power_of_two(n: u64) -> (r: bool)
    ensures
        r == is_power_of_two(n),
{
    n != 0 && n & (n - 1) == 0
}

/// Collects the memory BARs.
fn collect_bars(config: &ConfigSpace, masks: &[u32; 6]) -> (r: Result<Vec<PciBar>, PciError>)
    ensures
        match r {
            Ok(bars) => bars_from(config@, masks@, 0) == Ok::<Seq<PciBar>, PciError>(bars@)
                && bars@.len() <= 6,
            Err(e) => bars_from(config@, masks@, 0) == Err::<Seq<PciBar>, PciError>(e),
        },
{
    let mut bars: Vec<PciBar> = Vec::new();
    let mut index: u8 = 0;
    while (index as usize) < MAX_DEVICE_BARS
        invariant
            index <= 6,
            bars@.len() <= index,
            bars_from(config@, masks@, 0) == (match bars_from(config@, masks@, index as int) {
                Ok(rest) => Ok::<Seq<PciBar>, PciError>(bars@ + rest),
                Err(e) => Err(e),
            }),
        decreases 6 - index,
    {
        let low: u32 = config.word(0x10 + 4 * index);
        if low == 0 || low == 0xffff_ffff || low & 1 != 0 {
            index += 1;
            continue;
        }
        let kind: u32 = (low >> 1) & 3;
        let is_64 = kind == 2;
        if kind == 1 || (is_64 && index + 1 >= 6) {
            return Err(PciError::UnsupportedBar);
        }
        let high: u32 = if is_64 {
            config.word(0x10 + 4 * (index + 1))
        } else {
            0
        };
        let mask_low: u32 = masks[index as usize];
        let mask_high: u32 = if is_64 {
            masks[index as usize + 1]
        } else {
            0
        };
        if !bar_usable(low, high, mask_low, mask_high, is_64) {
            return Err(PciError::InvalidBar);
        }
        let (address, length) = bar_range(low, high, mask_low, mask_high, is_64);
        let bar = PciBar { index, physical_address: address, length, guest_address: 0 };
        let ghost before = bars@;
        bars.push(bar);
        let step: u8 = if is_64 {
            2
        } else {
            1
        };
        proof {
            let rest = bars_from(config@, masks@, index + step);
            if let Ok(more) = rest {
                assert(before + (seq![bar] + more) =~= bars@ + more);
            }
        }
        index += step;
    }
    assert(bars@ + Seq::<PciBar>::empty() =~= bars@);
    Ok(bars)
}

/// Describes the capabilities of an endpoint, before any BAR is sized. Where one is
/// broken, none is.
pub fn probe_capabilities(requester: u16, config: &ConfigSpace) -> (r: Result<
    PciDescriptor,
    PciError,
>)
    ensures
        match r {
            Ok(d) => {
                &&& d.has_capabilities(requester, config@)
                &&& d.bar_count == 0
                &&& capability_error(config@) is None
            },
            Err(e) => capability_error(config@) == Some(e),
        },
{
    let msi_capability: u8 = find_capability(config, CAPABILITY_MSI)?;
    let msix_capability: u8 = find_capability(config, CAPABILITY_MSIX)?;
    let pcie_capability: u8 = find_capability(config, CAPABILITY_PCIE)?;
    Ok(
        PciDescriptor {
            requester,
            original_command: config.half(4),
            bars: [PciBar::default(); 6],
            bar_count: 0,
            msi_capability,
            msix_capability,
            pcie_capability,
        },
    )
}

/// Describes an endpoint from its configuration space, read while its decoding
/// and bus mastering were off. `masks` are the BAR registers after all ones were
/// written, and `command` is the command register as it reads back in the end.
pub fn probe_descriptor(
    requester: u16,
    config: &ConfigSpace,
    masks: &[u32; 6],
    command: u16,
) -> (r: Result<PciDescriptor, PciError>)
    ensures
        match r {
            Ok(d) => {
                &&& endpoint_error(requester, config@) is None
                &&& command & COMMAND_BUS_MASTER == 0
                &&& description_error(config@, masks@) is None
                &&& d.describes(requester, config@, masks@)
            },
            Err(e) => e == (match endpoint_error(requester, config@) {
                Some(early) => early,
                None => if command & COMMAND_BUS_MASTER != 0 {
                    PciError::RegisterWriteFailed
                } else {
                    description_error(config@, masks@)->0
                },
            }) && (endpoint_error(requester, config@) is Some || command & COMMAND_BUS_MASTER != 0
                || description_error(config@, masks@) is Some),
        },
{
    check_endpoint(requester, config)?;
    if command & COMMAND_BUS_MASTER != 0 {
        return Err(PciError::RegisterWriteFailed);
    }
    let capabilities = probe_capabilities(requester, config)?;
    let found = collect_bars(config, masks)?;
    if found.len() == 0 || (capabilities.msi_capability == 0 && capabilities.msix_capability == 0) {
        return Err(PciError::InterruptUnavailable);
    }
    let mut bars: [PciBar; 6] = [PciBar::default(); 6];
    let mut i: usize = 0;
    while i < found.len()
        invariant
            i <= found@.len() <= 6,
            forall|j: int| 0 <= j < i ==> #[trigger] bars@[j] == found@[j],
            forall|j: int| i <= j < 6 ==> #[trigger] bars@[j] == empty_bar(),
        decreases found@.len() - i,
    {
        bars[i] = found[i];
        i += 1;
    }
    let descriptor = PciDescriptor { bars, bar_count: found.len(), ..capabilities };
    assert(descriptor.used_bars() =~= found@);
    Ok(descriptor)
}

/// Every BAR that a probe accepts is a page-aligned power-of-two range of at
/// least one page.
pub proof fn law_probed_bars_are_usable(config: Seq<u8>, masks: Seq<u32>, index: int, i: int)
    requires
        0 <= index <= 6,
        bars_from(config, masks, index) is Ok,
        0 <= i < bars_from(config, masks, index)->Ok_0.len(),
    ensures
        ({
            let bar = bars_from(config, masks, index)->Ok_0[i];
            &&& is_usable_bar(bar.physical_address, bar.length)
            &&& index <= bar.index < 6
        }),
    decreases 6 - index,
{
    let low = bar_register(config, index);
    if index < 6 {
        if !is_memory_bar(low) {
            law_probed_bars_are_usable(config, masks, index + 1, i);
        } else if i > 0 {
            let step: int = if bar_kind(low) == 2 {
                2
            } else {
                1
            };
            law_probed_bars_are_usable(config, masks, index + step, i - 1);
        }
    }
}

/// The BARs that are sized are those that a probe describes, in order. Where it refuses
/// one, nothing behind that one is sized.
pub proof fn law_probe_sizes_what_it_describes(config: Seq<u8>, masks: Seq<u32>, index: int)
    requires
        0 <= index <= 6,
    ensures
        match bars_from(config, masks, index) {
            Ok(bars) => {
                &&& sizings(config, masks, index).len() == bars.len()
                &&& forall|i: int|
                    0 <= i < bars.len() ==> {
                        let sizing = #[trigger] sizings(config, masks, index)[i];
                        sizing.index == bars[i].index && is_sized(config, masks, sizing)
                    }
            },
            Err(e) => {
                let sized = sizings(config, masks, index);
                &&& forall|i: int|
                    0 <= i < sized.len() - 1 ==> is_sized(config, masks, #[trigger] sized[i])
                &&& e == PciError::InvalidBar <==> sized.len() > 0 && !is_sized(
                    config,
                    masks,
                    sized.last(),
                )
            },
        },
    decreases 6 - index,
{
    if index < 6 {
        lemma_sizing_from(config, index);
        let low = bar_register(config, index);
        if !is_memory_bar(low) {
            law_probe_sizes_what_it_describes(config, masks, index + 1);
            lemma_sizing_from(config, index + 1);
            assert(sizings(config, masks, index) =~= sizings(config, masks, index + 1));
        } else if sizing_from(config, index) is Some {
            let sizing = sizing_from(config, index)->0;
            assert(sizing.index == index);
            if is_sized(config, masks, sizing) {
                law_probe_sizes_what_it_describes(config, masks, behind(sizing));
                let rest = sizings(config, masks, behind(sizing));
                let sized = sizings(config, masks, index);
                assert(sized =~= seq![sizing] + rest);
                if rest.len() > 0 {
                    assert(sized.last() == rest.last());
                }
                assert forall|i: int| 0 < i < sized.len() implies #[trigger] sized[i] == rest[i - 1] by {
                }
            }
        }
    }
}

/// Sizing one BAR after the other comes to exactly the BARs that are sized, and to none
/// behind the last.
pub proof fn law_sizing_steps_through_the_bars(config: Seq<u8>, masks: Seq<u32>, index: int, i: int)
    requires
        0 <= index <= 6,
        0 <= i < sizings(config, masks, index).len(),
    ensures
        ({
            let sized = sizings(config, masks, index);
            &&& sizing_from(config, index) == Some(sized[0])
            &&& sizing_after(config, masks, Some(sized[i])) == (if i + 1 < sized.len() {
                Some(sized[i + 1])
            } else {
                None
            })
        }),
    decreases 6 - index,
{
    lemma_sizing_from(config, index);
    let sizing = sizing_from(config, index)->0;
    let sized = sizings(config, masks, index);
    if is_sized(config, masks, sizing) {
        let next = behind(sizing);
        let rest = sizings(config, masks, next);
        assert(sized =~= seq![sizing] + rest);
        if i > 0 {
            law_sizing_steps_through_the_bars(config, masks, next, i - 1);
            assert(sized[i] == rest[i - 1]);
        } else if rest.len() > 0 {
            law_sizing_steps_through_the_bars(config, masks, next, 0);
        }
        if i + 1 < sized.len() {
            assert(sized[i + 1] == rest[i]);
        }
    }
}

/// Which registers tell the memory that Intel integrated graphics reserves.
#[derive(Clone, Copy, Debug, PartialEq, Eq, Structural)]
pub struct IntelGraphicsIdentity {
    pub bridge_vendor: u16,
    pub bridge_class: u8,
    pub display_vendor: u16,
    pub display_class: u8,
}

/// Whether the requester is an Intel integrated display behind an Intel host
/// bridge, so that the bridge's registers may be read that way.
pub fn is_intel_graphics(requester: u16, identity: &IntelGraphicsIdentity) -> (r: bool)
    ensures
        r == (requester == INTEL_GRAPHICS_REQUESTER && identity.bridge_vendor == INTEL_VENDOR_ID
            && identity.bridge_class == 0x06 && identity.display_vendor == INTEL_VENDOR_ID
            && identity.display_class == 0x03),
{
    requester == INTEL_GRAPHICS_REQUESTER && identity.bridge_vendor == INTEL_VENDOR_ID
        && identity.bridge_class == 0x06 && identity.display_vendor == INTEL_VENDOR_ID
        && identity.display_class == 0x03
}

/// The range below TOLUD that holds both the stolen data and the stolen GTT.
pub open spec fn stolen_range(bdsm: u32, bgsm: u32, tolud: u32) -> Option<(u64, u64)> {
    let data_base = bdsm & INTEL_MEMORY_BASE_MASK;
    let gtt_base = bgsm & INTEL_MEMORY_BASE_MASK;
    let top = tolud & INTEL_MEMORY_BASE_MASK;
    let base = if data_base < gtt_base {
        data_base
    } else {
        gtt_base
    };
    if base == 0 || data_base >= top || gtt_base >= top || top - base > MAX_INTEL_STOLEN_MEMORY {
        None
    } else {
        Some((base as u64, (top - 1) as u64))
    }
}

/// Returns the Intel integrated graphics memory reserved below TOLUD.
///
/// The range contains both the GTT stolen area and the graphics data stolen
/// area. It is read from the Intel host bridge rather than guessed from the
/// framebuffer address. Only the conventional integrated display requester is
/// accepted so these chipset-specific registers are never interpreted for a
/// discrete GPU.
pub fn intel_graphics_stolen_range(
    requester: u16,
    identity: &IntelGraphicsIdentity,
    bdsm: u32,
    bgsm: u32,
    tolud: u32,
) -> (r: Option<(u64, u64)>)
    ensures
        r == (if requester == INTEL_GRAPHICS_REQUESTER && identity.bridge_vendor == INTEL_VENDOR_ID
            && identity.bridge_class == 0x06 && identity.display_vendor == INTEL_VENDOR_ID
            && identity.display_class == 0x03 {
            stolen_range(bdsm, bgsm, tolud)
        } else {
            None
        }),
{
    if !is_intel_graphics(requester, identity) {
        return None;
    }
    intel_graphics_stolen_range_from_registers(bdsm, bgsm, tolud)
}

pub fn intel_graphics_stolen_range_from_registers(
    bdsm: u32,
    bgsm: u32,
    tolud: u32,
) -> (r: Option<(u64, u64)>)
    ensures
        r == stolen_range(bdsm, bgsm, tolud),
{
    let data_base: u64 = (bdsm & INTEL_MEMORY_BASE_MASK) as u64;
    let gtt_base: u64 = (bgsm & INTEL_MEMORY_BASE_MASK) as u64;
    let top: u64 = (tolud & INTEL_MEMORY_BASE_MASK) as u64;
    let base: u64 = if data_base < gtt_base {
        data_base
    } else {
        gtt_base
    };
    if base == 0 || data_base >= top || gtt_base >= top || top - base > MAX_INTEL_STOLEN_MEMORY {
        return None;
    }
    Some((base, top - 1))
}

/// The parts of a BAR register and of its size mask.
proof fn lemma_bar_parts(low: u32, high: u32, mask_low: u32, mask_high: u32)
    ensures
        low & 1 == low % 2,
        bar_kind(low) == low / 2 % 4,
        bar_address(low, high) == 0x1_0000_0000 * high + (low - low % 16),
        bar_mask(mask_low, mask_high, true) == 0x1_0000_0000 * mask_high + (mask_low - mask_low
            % 16),
        bar_mask(mask_low, mask_high, false) == 0xffff_ffff_0000_0000 + (mask_low - mask_low % 16),
{
    assert(low & 1 == low % 2 && (low >> 1) & 3 == low / 2 % 4 && ((high as u64) << 32) | ((low
        & 0xffff_fff0) as u64) == 0x1_0000_0000 * high + (low - low % 16) && ((mask_high as u64)
        << 32) | ((mask_low & 0xffff_fff0) as u64) == 0x1_0000_0000 * mask_high + (mask_low
        - mask_low % 16) && ((mask_low & 0xffff_fff0) as u64) | 0xffff_ffff_0000_0000
        == 0xffff_ffff_0000_0000 + (mask_low - mask_low % 16)) by (bit_vector);
}

/// What the BAR registers of a function say, one by one from 0x10 on. A register that is
/// empty, all ones or of I/O (bit 0) is passed over. One of memory is 32 or 64 bits wide by
/// its bits 1 and 2, the wide one with its high half in the next register; any other width
/// is refused. Its address is what it holds without its low four bits, and its size what is
/// missing to the full range of addresses from what can be written of it.
pub proof fn law_bars_are_read_from_their_registers(config: Seq<u8>, masks: Seq<u32>, index: int)
    requires
        0 <= index < 6,
        masks.len() == 6,
    ensures
        ({
            let low = u32_at(config, 0x10 + 4 * index);
            let high = u32_at(config, 0x14 + 4 * index);
            let mask = (masks[index] - masks[index] % 16) as int;
            let wide = low / 2 % 4 == 2;
            let step: int = if wide {
                2
            } else {
                1
            };
            let address = (low - low % 16) + if wide {
                0x1_0000_0000 * high
            } else {
                0
            };
            let length = if wide {
                0x1_0000_0000_0000_0000 - mask - 0x1_0000_0000 * masks[index + 1]
            } else {
                0x1_0000_0000 - mask
            };
            let skipped = low == 0 || low == 0xffff_ffff || low % 2 == 1;
            &&& skipped ==> bars_from(config, masks, index) == bars_from(config, masks, index + 1)
            &&& !skipped && (low / 2 % 4 == 1 || wide && index == 5) ==> bars_from(
                config,
                masks,
                index,
            ) == Err::<Seq<PciBar>, PciError>(PciError::UnsupportedBar)
            &&& !skipped && low / 2 % 4 != 1 && !(wide && index == 5) && 0 < length
                <= 0xffff_ffff_ffff_ffff ==> {
                if is_usable_bar(address as u64, length as u64) {
                    match bars_from(config, masks, index + step) {
                        Ok(rest) => bars_from(config, masks, index) == Ok::<Seq<PciBar>, PciError>(
                            seq![
                                PciBar {
                                    index: index as u8,
                                    physical_address: address as u64,
                                    length: length as u64,
                                    guest_address: 0,
                                },
                            ] + rest,
                        ),
                        Err(e) => bars_from(config, masks, index) == Err::<Seq<PciBar>, PciError>(e),
                    }
                } else {
                    bars_from(config, masks, index) == Err::<Seq<PciBar>, PciError>(
                        PciError::InvalidBar,
                    )
                }
            }
        }),
        bars_from(config, masks, 6) == Ok::<Seq<PciBar>, PciError>(Seq::empty()),
{
    let low = u32_at(config, 0x10 + 4 * index);
    let high = u32_at(config, 0x14 + 4 * index);
    let next = if index < 5 {
        masks[index + 1]
    } else {
        0
    };
    lemma_bar_parts(low, high, masks[index], next);
    lemma_bar_parts(low, 0, masks[index], 0);
    assert(bar_register(config, index) == low);
    assert(bar_register(config, index + 1) == high);
}

/// Only whole pages at an address of their own are usable: a power of two of at least a page
/// that ends in the address space, and starts below 2^52 but not at zero.
pub proof fn law_usable_bars_are_pages(address: u64, length: u64)
    ensures
        is_usable_bar(address, length) <==> address != 0 && address % 0x1000 == 0 && address
            < 0x10_0000_0000_0000 && length >= 0x1000 && length % 0x1000 == 0 && length & (length
            - 1) as u64 == 0 && address + length <= u64::MAX,
{
}

/// A capability that is found stands at an offset of a double word behind the header, with
/// its own number there, and all of it fits in the configuration space. Where the function
/// has no list (bit 4 of its status), nothing is found.
pub proof fn law_found_capability_is_there(config: Seq<u8>, wanted: u8)
    requires
        config.len() == 256,
        capability_of(config, wanted) is Ok,
        capability_of(config, wanted)->Ok_0 != 0,
    ensures
        u16_at(config, 6) & 0x10 != 0,
        config[capability_of(config, wanted)->Ok_0 as int] == wanted,
        capability_of(config, wanted)->Ok_0 >= 0x40,
        capability_of(config, wanted)->Ok_0 % 4 == 0,
        capability_of(config, wanted)->Ok_0 + (if wanted == 0x05 {
            0x14int
        } else if wanted == 0x11 {
            0x08
        } else if wanted == 0x10 {
            0x0a
        } else {
            0x02
        }) <= 0x100,
{
    lemma_walk_finds(
        config,
        wanted,
        list_pointer(config[0x34]),
        Seq::new(64, |i: int| false),
    );
}

proof fn lemma_walk_finds(config: Seq<u8>, wanted: u8, offset: int, visited: Seq<bool>)
    requires
        config.len() == 256,
        visited.len() == 64,
        0 <= offset < 256,
        offset % 4 == 0,
        walk_capabilities(config, wanted, offset, visited) is Ok,
        walk_capabilities(config, wanted, offset, visited)->Ok_0 != 0,
    ensures
        ({
            let found = walk_capabilities(config, wanted, offset, visited)->Ok_0;
            found >= 0x40 && found % 4 == 0 && config[found as int] == wanted && found
                + capability_size(wanted) <= 0x100
        }),
    decreases unvisited(visited, 64),
{
    if config[offset] != wanted {
        lemma_visit(visited, offset / 4, 64);
        lemma_walk_finds(
            config,
            wanted,
            list_pointer(config[offset + 1]),
            visited.update(offset / 4, true),
        );
    }
}

/// How the list is followed: it starts where 0x34 points, each capability has its number
/// first and the next pointer behind it, the low two bits of a pointer mean nothing, and a
/// pointer into the header ends it. A capability that comes a second time is a loop.
pub proof fn law_capability_list_is_followed(
    config: Seq<u8>,
    wanted: u8,
    offset: int,
    visited: Seq<bool>,
)
    requires
        config.len() == 256,
        visited.len() == 64,
        0 <= offset < 256,
    ensures
        u16_at(config, 6) & 0x10 == 0 ==> capability_of(config, wanted) == Ok::<u8, PciError>(0),
        u16_at(config, 6) & 0x10 != 0 ==> capability_of(config, wanted) == walk_capabilities(
            config,
            wanted,
            config[0x34] - config[0x34] % 4,
            Seq::new(64, |i: int| false),
        ),
        offset < 0x40 ==> walk_capabilities(config, wanted, offset, visited) == Ok::<u8, PciError>(
            0,
        ),
        offset >= 0x40 && visited[offset / 4] ==> walk_capabilities(config, wanted, offset, visited)
            == Err::<u8, PciError>(PciError::InvalidState),
        offset >= 0x40 && !visited[offset / 4] && config[offset] != wanted ==> walk_capabilities(
            config,
            wanted,
            offset,
            visited,
        ) == walk_capabilities(
            config,
            wanted,
            config[offset + 1] - config[offset + 1] % 4,
            visited.update(offset / 4, true),
        ),
{
}

/// A function is probed where it is not the host bridge, it is there (its vendor is not all
/// ones) and its header is an endpoint's (the low seven bits at 0x0e).
pub proof fn law_endpoints_are_probed(requester: u16, config: Seq<u8>)
    ensures
        requester == 0 || u16_at(config, 0) == 0xffff ==> endpoint_error(requester, config) == Some(
            PciError::InvalidRequester,
        ),
        requester != 0 && u16_at(config, 0) != 0xffff ==> endpoint_error(requester, config) == (if
            config[0x0e] & 0x7f == 0 {
            None
        } else {
            Some(PciError::UnsupportedHeader)
        }),
{
}

/// The memory that integrated graphics takes reaches from the lower of its two bases up to
/// the top of low memory, in MiB each. It is told exactly where both bases lie below that
/// top, neither is zero and it is no more than a GiB.
pub proof fn law_stolen_memory_lies_below_the_top(bdsm: u32, bgsm: u32, tolud: u32)
    ensures
        ({
            let data = bdsm & 0xfff0_0000;
            let tables = bgsm & 0xfff0_0000;
            let top = tolud & 0xfff0_0000;
            &&& stolen_range(bdsm, bgsm, tolud) is Some <==> 0 < data < top && 0 < tables < top
                && top - data <= 0x4000_0000 && top - tables <= 0x4000_0000
            &&& stolen_range(bdsm, bgsm, tolud) matches Some((base, last)) ==> base <= data && base
                <= tables && (base == data || base == tables) && last + 1 == top
        }),
{
}

} // verus!
