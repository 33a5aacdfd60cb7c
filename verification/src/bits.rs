//! Facts that tie masks and shifts to arithmetic.

use vstd::prelude::*;

verus! {

/// The low twelve bits of an address are its offset in a page.
pub proof fn lemma_page_offset(x: u64)
    ensures
        x & 0xfff == x % 0x1000,
{
    assert(x & 0xfff == x % 0x1000) by (bit_vector);
}

/// The address and the flags of a table entry can be told apart.
pub proof fn lemma_entry(address: u64, flags: u64)
    requires
        address % 0x1000 == 0,
        address < 0x10_0000_0000_0000,
        flags & 0x000f_ffff_ffff_f000 == 0,
    ensures
        (address | flags) & 0x000f_ffff_ffff_f000 == address,
        (address | flags) & 1 == flags & 1,
        (address | flags) & 0x80 == flags & 0x80,
        flags != 0 ==> address | flags != 0,
        address | flags == address + flags,
{
    assert((address | flags) & 0x000f_ffff_ffff_f000 == address && (address | flags) & 1 == flags & 1
        && (address | flags) & 0x80 == flags & 0x80 && (flags != 0 ==> address | flags != 0)
        && address | flags == address + flags) by (bit_vector)
        requires
            address % 0x1000 == 0,
            address < 0x10_0000_0000_0000,
            flags & 0x000f_ffff_ffff_f000 == 0,
    ;
}

/// The complement of a 64-bit word.
pub proof fn lemma_negation(x: u64)
    ensures
        !x == 0xffff_ffff_ffff_ffff - x,
{
    assert(!x == 0xffff_ffff_ffff_ffff - x) by (bit_vector);
}

} // verus!
