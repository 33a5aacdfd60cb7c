//! The guest physical address space of a Domain.
//!
//! From the top of its RAM down: the window in which other Domains' pages are
//! mapped, a window that is kept for devices, and the stack of a native kernel.
//! PCI functions appear above the RAM.

use vstd::prelude::*;

use crate::abi::DOMAIN_DEVICE_ADDRESS_LIMIT;

verus! {

pub const MAX_GUEST_MEMORY_PAGES: usize = 65_536;
pub const GRANT_WINDOW_PAGES: usize = 16;
pub const DEVICE_WINDOW_PAGES: usize = 64;
/// The smallest Domain holds both windows and a little more.
pub const MIN_GUEST_MEMORY_PAGES: usize = 96;
pub const GRANT_WINDOW_BYTES: u64 = 0x1_0000;
pub const DEVICE_WINDOW_BYTES: u64 = 0x4_0000;
pub const DOMAIN_STACK_BYTES: u64 = 0x10_0000;
pub const DEVICE_WINDOW_START: u64 = 0x1000_0000;
pub const DEVICE_WINDOW_LIMIT: u64 = DOMAIN_DEVICE_ADDRESS_LIMIT;
pub const DOMAIN_BOOT_INFO_GPA: u64 = 0x3000;
pub const SPARSE_LEVEL3_PAGES: usize = 2;
pub const SPARSE_LEVEL2_PAGES: usize = 1024;
pub const SPARSE_LEVEL1_PAGES: usize = 256;

/// Where other Domains' pages are mapped.
pub open spec fn grant_window(memory_size: int) -> int {
    memory_size - GRANT_WINDOW_BYTES
}

/// Where the RAM that a guest may use as such ends.
pub open spec fn device_window(memory_size: int) -> int {
    memory_size - GRANT_WINDOW_BYTES - DEVICE_WINDOW_BYTES
}

pub fn grant_window_start(memory_size: u64) -> (r: u64)
    requires
        memory_size >= GRANT_WINDOW_BYTES,
    ensures
        r == grant_window(memory_size as int),
{
    memory_size - GRANT_WINDOW_BYTES
}

pub fn device_window_start(memory_size: u64) -> (r: u64)
    requires
        memory_size >= GRANT_WINDOW_BYTES + DEVICE_WINDOW_BYTES,
    ensures
        r == device_window(memory_size as int),
{
    grant_window_start(memory_size) - DEVICE_WINDOW_BYTES
}

pub fn domain_stack_bottom(memory_size: u64) -> (r: u64)
    requires
        memory_size >= GRANT_WINDOW_BYTES + DEVICE_WINDOW_BYTES + DOMAIN_STACK_BYTES,
    ensures
        r == device_window(memory_size as int) - DOMAIN_STACK_BYTES,
{
    device_window_start(memory_size) - DOMAIN_STACK_BYTES
}

pub fn domain_stack_pointer(memory_size: u64) -> (r: u64)
    requires
        memory_size >= GRANT_WINDOW_BYTES + DEVICE_WINDOW_BYTES + 16,
    ensures
        r == device_window(memory_size as int) - 16,
{
    device_window_start(memory_size) - 16
}

/// Whether the page is one of the grant window.
pub open spec fn is_grant_page(memory_size: int, guest_page: int) -> bool {
    guest_page % 0x1000 == 0 && grant_window(memory_size) <= guest_page && guest_page + 0x1000
        <= memory_size
}

pub fn grant_window_contains(memory_size: u64, guest_page: u64) -> (r: bool)
    requires
        memory_size >= GRANT_WINDOW_BYTES,
    ensures
        r == is_grant_page(memory_size as int, guest_page as int),
{
    guest_page % 0x1000 == 0 && guest_page >= grant_window_start(memory_size) && guest_page
        <= u64::MAX - 0x1000 && guest_page + 0x1000 <= memory_size
}

/// The least page boundary that is not below the value, or the greatest one.
pub open spec fn page_end(value: int) -> int {
    if value + 0xfff <= u64::MAX {
        (value + 0xfff) / 0x1000 * 0x1000
    } else {
        0xffff_ffff_ffff_f000
    }
}

pub fn align_up_4k(value: u64) -> (r: u64)
    ensures
        r == page_end(value as int),
{
    let raised: u64 = value.saturating_add(0xfff);
    raised / 0x1000 * 0x1000
}

/// The number of pages of a Domain is one that the launcher supports.
pub open spec fn is_supported_size(pages: int) -> bool {
    MIN_GUEST_MEMORY_PAGES <= pages <= MAX_GUEST_MEMORY_PAGES
}

/// The whole pages of a Domain of this size, if the launcher supports so many.
pub fn guest_pages(memory_size: u64) -> (r: Option<usize>)
    ensures
        r == (if is_supported_size(memory_size as int / 4096) {
            Some((memory_size / 4096) as usize)
        } else {
            None
        }),
{
    let pages: u64 = memory_size / 4096;
    if pages >= MIN_GUEST_MEMORY_PAGES as u64 && pages <= MAX_GUEST_MEMORY_PAGES as u64 {
        Some(pages as usize)
    } else {
        None
    }
}

/// How many pages each part of a Domain's nested tables takes.
#[derive(Clone, Copy, Debug, PartialEq, Eq, Structural)]
pub struct NestedPageCounts {
    pub level3: usize,
    pub level2: usize,
    pub level1: usize,
    pub device_level1: usize,
    pub guest: usize,
}

pub fn nested_page_counts(guest_pages: usize) -> (r: NestedPageCounts)
    requires
        guest_pages <= MAX_GUEST_MEMORY_PAGES,
    ensures
        r == (NestedPageCounts {
            level3: SPARSE_LEVEL3_PAGES,
            level2: SPARSE_LEVEL2_PAGES,
            level1: ((guest_pages + 511) / 512) as usize,
            device_level1: SPARSE_LEVEL1_PAGES,
            guest: guest_pages,
        }),
{
    NestedPageCounts {
        level3: SPARSE_LEVEL3_PAGES,
        level2: SPARSE_LEVEL2_PAGES,
        level1: (guest_pages + 511) / 512,
        device_level1: SPARSE_LEVEL1_PAGES,
        guest: guest_pages,
    }
}

/// Where the firmware's framebuffer appears in a Domain.
#[derive(Clone, Copy, Debug, PartialEq, Eq, Structural)]
pub struct FramebufferPlacement {
    pub host_page: u64,
    pub guest_page: u64,
    pub mapped_len: u64,
    pub guest_address: u64,
}

pub open spec fn framebuffer_guest_page(memory_size: int) -> int {
    page_end(
        if memory_size >= DEVICE_WINDOW_START {
            memory_size
        } else {
            DEVICE_WINDOW_START as int
        },
    )
}

/// Places a framebuffer above the RAM of a Domain, unless it does not fit into
/// the address space.
pub fn place_framebuffer(
    address: u64,
    size: u64,
    memory_size: u64,
) -> (r: Option<FramebufferPlacement>)
    ensures
        ({
            let offset = address % 0x1000;
            let guest_page = framebuffer_guest_page(memory_size as int);
            if size + offset + 0xfff > u64::MAX || guest_page + offset > u64::MAX {
                r is None
            } else {
                r == Some(
                    FramebufferPlacement {
                        host_page: (address - offset) as u64,
                        guest_page: guest_page as u64,
                        mapped_len: ((size + offset + 0xfff) / 0x1000 * 0x1000) as u64,
                        guest_address: (guest_page + offset) as u64,
                    },
                )
            }
        }),
{
    let offset: u64 = address % 0x1000;
    let host_page: u64 = address - offset;
    let padded: u64 = match size.checked_add(offset) {
        Some(length) => match length.checked_add(0xfff) {
            Some(length) => length,
            None => {
                return None;
            },
        },
        None => {
            return None;
        },
    };
    let mapped_len: u64 = padded / 0x1000 * 0x1000;
    let top: u64 = if memory_size >= DEVICE_WINDOW_START {
        memory_size
    } else {
        DEVICE_WINDOW_START
    };
    let guest_page: u64 = align_up_4k(top);
    match guest_page.checked_add(offset) {
        Some(guest_address) => Some(
            FramebufferPlacement { host_page, guest_page, mapped_len, guest_address },
        ),
        None => None,
    }
}

/// The windows at the top of a Domain's RAM lie in that RAM, one below the other,
/// and a native kernel's stack pointer lies below both.
pub proof fn law_windows_do_not_overlap(memory_size: int)
    requires
        is_supported_size(memory_size / 4096),
    ensures
        0 < device_window(memory_size) - 16,
        device_window(memory_size) + DEVICE_WINDOW_BYTES == grant_window(memory_size),
        grant_window(memory_size) + GRANT_WINDOW_BYTES == memory_size,
{
}

/// A page of the grant window is a page of the Domain's RAM above the RAM that
/// the guest is told to use.
pub proof fn law_grant_pages_are_kept_from_the_guest(memory_size: int, guest_page: int)
    requires
        is_grant_page(memory_size, guest_page),
    ensures
        device_window(memory_size) + DEVICE_WINDOW_BYTES <= guest_page,
        guest_page + 0x1000 <= memory_size,
{
}

/// The pages that a placed framebuffer occupies cover all of it, at the same place
/// within the first page.
pub proof fn law_placed_framebuffer_is_covered(
    address: u64,
    size: u64,
    memory_size: u64,
    r: FramebufferPlacement,
)
    requires
        ({
            let offset = address % 0x1000;
            let guest_page = framebuffer_guest_page(memory_size as int);
            &&& size + offset + 0xfff <= u64::MAX
            &&& guest_page + offset <= u64::MAX
            &&& r == (FramebufferPlacement {
                host_page: (address - offset) as u64,
                guest_page: guest_page as u64,
                mapped_len: ((size + offset + 0xfff) / 0x1000 * 0x1000) as u64,
                guest_address: (guest_page + offset) as u64,
            })
        }),
    ensures
        r.host_page % 0x1000 == 0,
        r.mapped_len % 0x1000 == 0,
        r.host_page <= address,
        address + size <= r.host_page + r.mapped_len,
        r.guest_address - r.guest_page == address - r.host_page,
{
}

/// The grant window is the last sixteen pages of a Domain's RAM: a page is one of it
/// exactly where it is one of those.
pub proof fn law_grant_window_is_sixteen_pages(memory_size: int, guest_page: int)
    requires
        memory_size % 0x1000 == 0,
        memory_size >= 0x1_0000,
    ensures
        is_grant_page(memory_size, guest_page) <==> guest_page % 0x1000 == 0 && memory_size
            - 0x1_0000 <= guest_page < memory_size,
        grant_window(memory_size) == memory_size - 0x1_0000,
        device_window(memory_size) == memory_size - 0x5_0000,
        is_supported_size(memory_size / 4096) <==> 96 <= memory_size / 4096 <= 65536,
{
}

/// A framebuffer appears on a page of its own above the RAM and above 256 MiB, the first
/// such page.
pub proof fn law_framebuffer_is_above_the_ram(memory_size: u64)
    requires
        memory_size <= 0xffff_ffff_ffff_f000,
    ensures
        framebuffer_guest_page(memory_size as int) % 0x1000 == 0,
        framebuffer_guest_page(memory_size as int) >= memory_size,
        framebuffer_guest_page(memory_size as int) >= 0x1000_0000,
        forall|page: int|
            #![trigger page % 0x1000]
            page % 0x1000 == 0 && page >= memory_size && page >= 0x1000_0000 ==> page
                >= framebuffer_guest_page(memory_size as int),
{
}

/// Rounding up gives the least page boundary that is not below the value.
pub proof fn law_page_end_is_the_next_boundary(value: u64)
    requires
        value <= 0xffff_ffff_ffff_f000,
    ensures
        page_end(value as int) % 0x1000 == 0,
        value <= page_end(value as int) < value + 0x1000,
{
}

} // verus!
