//! The map of model-specific registers that a guest may use directly.

use vstd::prelude::*;

use crate::BackendKind;

verus! {

/// Two pages. Every bit that is set makes an access exit.
pub const PERMISSION_MAP_BYTES: usize = 8192;

/// The registers that a guest uses without exits: the system call entry points,
/// the page attributes and the segment bases.
pub const GUEST_MSRS: [u32; 13] = [
    0x174,
    0x175,
    0x176,
    0x277,
    0xc000_0080,
    0xc000_0081,
    0xc000_0082,
    0xc000_0083,
    0xc000_0084,
    0xc000_0100,
    0xc000_0101,
    0xc000_0102,
    0xc000_0103,
];

/// The bits of a register in the map of a processor: the two of its reads and its
/// writes. The map of an Intel processor has bits for two ranges of registers, that
/// of an AMD processor for three.
pub open spec fn msr_bits(backend: BackendKind, msr: u32) -> Option<(int, int)> {
    match backend {
        BackendKind::IntelVmx => if msr <= 0x1fff {
            Some((msr as int, 8 * 2048 + msr))
        } else if 0xc000_0000 <= msr <= 0xc000_1fff {
            Some((8 * 1024 + (msr - 0xc000_0000), 8 * 3072 + (msr - 0xc000_0000)))
        } else {
            None
        },
        BackendKind::AmdSvm => if msr <= 0x1fff {
            Some((2 * msr, 2 * msr + 1))
        } else if 0xc000_0000 <= msr <= 0xc000_1fff {
            Some((2 * (8192 + (msr - 0xc000_0000)), 2 * (8192 + (msr - 0xc000_0000)) + 1))
        } else if 0xc001_0000 <= msr <= 0xc001_1fff {
            Some((2 * (16384 + (msr - 0xc001_0000)), 2 * (16384 + (msr - 0xc001_0000)) + 1))
        } else {
            None
        },
    }
}

/// Whether bit `bit` of the map is set.
pub open spec fn map_bit(map: Seq<u8>, bit: int) -> bool {
    map[bit / 8] & (1u8 << ((bit % 8) as u8)) != 0
}

/// Whether the register is one whose bits are `read` and `write`.
pub open spec fn bit_of_msr(backend: BackendKind, msr: u32, bit: int) -> bool {
    match msr_bits(backend, msr) {
        Some((read, write)) => bit == read || bit == write,
        None => false,
    }
}

/// Clears one bit of a byte and leaves the others.
proof fn lemma_clear_bit(byte: u8, bit: u8, other: u8)
    requires
        bit < 8,
        other < 8,
    ensures
        (byte & !(1u8 << bit)) & (1u8 << other) != 0 <==> bit != other && byte & (1u8 << other)
            != 0,
{
    assert((byte & !(1u8 << bit)) & (1u8 << other) != 0 <==> bit != other && byte & (1u8 << other)
        != 0) by (bit_vector)
        requires
            bit < 8,
            other < 8,
    ;
}

/// Clears bit `bit` of the map.
fn clear_bit(map: &mut Vec<u8>, bit: usize)
    requires
        old(map)@.len() == PERMISSION_MAP_BYTES,
        bit < 8 * PERMISSION_MAP_BYTES,
    ensures
        final(map)@.len() == PERMISSION_MAP_BYTES,
        forall|i: int|
            0 <= i < 8 * PERMISSION_MAP_BYTES ==> #[trigger] map_bit(final(map)@, i) == (i != bit
                && map_bit(old(map)@, i)),
{
    let shift: u8 = (bit % 8) as u8;
    let byte: u8 = map[bit / 8];
    map.set(bit / 8, byte & !(1u8 << shift));
    assert forall|i: int| 0 <= i < 8 * PERMISSION_MAP_BYTES implies #[trigger] map_bit(
        map@,
        i,
    ) == (i != bit && map_bit(old(map)@, i)) by {
        if i / 8 == bit as int / 8 {
            lemma_clear_bit(byte, shift, (i % 8) as u8);
        }
    }
}

/// Lets a guest use a register without exits, if the map has bits for it.
pub fn allow_guest_msr(map: &mut Vec<u8>, backend: BackendKind, msr: u32)
    requires
        old(map)@.len() == PERMISSION_MAP_BYTES,
    ensures
        final(map)@.len() == PERMISSION_MAP_BYTES,
        forall|i: int|
            0 <= i < 8 * PERMISSION_MAP_BYTES ==> #[trigger] map_bit(final(map)@, i) == (
            !bit_of_msr(backend, msr, i) && map_bit(old(map)@, i)),
{
    match backend {
        BackendKind::IntelVmx => {
            let (index, read_base, write_base): (usize, usize, usize) = if msr <= 0x1fff {
                (msr as usize, 0, 2048)
            } else if msr >= 0xc000_0000 && msr <= 0xc000_1fff {
                ((msr - 0xc000_0000) as usize, 1024, 3072)
            } else {
                return;
            };
            clear_bit(map, 8 * read_base + index);
            clear_bit(map, 8 * write_base + index);
        },
        BackendKind::AmdSvm => {
            let index: usize = if msr <= 0x1fff {
                msr as usize
            } else if msr >= 0xc000_0000 && msr <= 0xc000_1fff {
                8192 + (msr - 0xc000_0000) as usize
            } else if msr >= 0xc001_0000 && msr <= 0xc001_1fff {
                16384 + (msr - 0xc001_0000) as usize
            } else {
                return;
            };
            clear_bit(map, 2 * index);
            clear_bit(map, 2 * index + 1);
        },
    }
}

/// Whether one of the first `n` registers of the list has the bit.
pub open spec fn is_allowed_bit(backend: BackendKind, bit: int, n: int) -> bool {
    exists|k: int| 0 <= k < n && bit_of_msr(backend, #[trigger] GUEST_MSRS@[k], bit)
}

/// A map that lets a guest use the listed registers directly and makes every other
/// access exit.
pub fn msr_permission_map(backend: BackendKind) -> (r: Vec<u8>)
    ensures
        r@.len() == PERMISSION_MAP_BYTES,
        forall|i: int|
            0 <= i < 8 * PERMISSION_MAP_BYTES ==> #[trigger] map_bit(r@, i) == !is_allowed_bit(
                backend,
                i,
                13,
            ),
{
    let mut map: Vec<u8> = Vec::new();
    while map.len() < PERMISSION_MAP_BYTES
        invariant
            map@.len() <= PERMISSION_MAP_BYTES,
            forall|i: int| 0 <= i < map@.len() ==> #[trigger] map@[i] == 0xff,
        decreases PERMISSION_MAP_BYTES - map@.len(),
    {
        map.push(0xff);
    }
    assert forall|i: int| 0 <= i < 8 * PERMISSION_MAP_BYTES implies #[trigger] map_bit(map@, i) by {
        let shift = (i % 8) as u8;
        assert(0xffu8 & (1u8 << shift) != 0) by (bit_vector)
            requires
                shift < 8,
        ;
        assert(map@[i / 8] == 0xff);
    }
    let msrs: [u32; 13] = GUEST_MSRS;
    let mut n: usize = 0;
    while n < 13
        invariant
            n <= 13,
            msrs@ == GUEST_MSRS@,
            map@.len() == PERMISSION_MAP_BYTES,
            forall|i: int|
                0 <= i < 8 * PERMISSION_MAP_BYTES ==> #[trigger] map_bit(map@, i)
                    == !is_allowed_bit(backend, i, n as int),
        decreases 13 - n,
    {
        let ghost before = map@;
        allow_guest_msr(&mut map, backend, msrs[n]);
        assert forall|i: int| 0 <= i < 8 * PERMISSION_MAP_BYTES implies #[trigger] map_bit(
            map@,
            i,
        ) == !is_allowed_bit(backend, i, n + 1) by {
            assert(map_bit(before, i) == !is_allowed_bit(backend, i, n as int));
            if bit_of_msr(backend, GUEST_MSRS@[n as int], i) {
                assert(is_allowed_bit(backend, i, n + 1));
            }
            if is_allowed_bit(backend, i, n as int) {
                let k = choose|k: int|
                    0 <= k < n && bit_of_msr(backend, #[trigger] GUEST_MSRS@[k], i);
                assert(is_allowed_bit(backend, i, n + 1));
            }
            if is_allowed_bit(backend, i, n + 1) {
                let k = choose|k: int|
                    0 <= k < n + 1 && bit_of_msr(backend, #[trigger] GUEST_MSRS@[k], i);
                if k < n {
                    assert(is_allowed_bit(backend, i, n as int));
                }
            }
        }
        n += 1;
    }
    map
}

/// In the map of a guest an access to a register that is not on the list exits:
/// no other register shares its bits.
pub proof fn law_only_listed_registers_are_open(backend: BackendKind, msr: u32, bit: int)
    requires
        bit_of_msr(backend, msr, bit),
        is_allowed_bit(backend, bit, 13),
    ensures
        exists|k: int| 0 <= k < 13 && #[trigger] GUEST_MSRS@[k] == msr,
{
    let k = choose|k: int| 0 <= k < 13 && bit_of_msr(backend, #[trigger] GUEST_MSRS@[k], bit);
    assert(GUEST_MSRS@[k] == msr);
}

/// Whether a guest uses a register directly: the three of fast system calls, the page
/// attributes, EFER with the four of SYSCALL, the segment bases and the processor number.
pub open spec fn is_listed(msr: u32) -> bool {
    ||| 0x174 <= msr <= 0x176
    ||| msr == 0x277
    ||| 0xc000_0080 <= msr <= 0xc000_0084
    ||| 0xc000_0100 <= msr <= 0xc000_0103
}

/// In the map of a guest the bits of a register are clear exactly where the register is
/// listed: there it is read and written without an exit, and every other register of the
/// map exits on both.
pub proof fn law_listed_registers_are_open(backend: BackendKind, msr: u32)
    ensures
        msr_bits(backend, msr) matches Some((read, write)) ==> (is_allowed_bit(backend, read, 13)
            <==> is_listed(msr)) && (is_allowed_bit(backend, write, 13) <==> is_listed(msr)),
        is_listed(msr) ==> msr_bits(backend, msr) is Some,
{
    let list = GUEST_MSRS@;
    assert(list[0] == 0x174 && list[1] == 0x175 && list[2] == 0x176 && list[3] == 0x277 && list[4]
        == 0xc000_0080 && list[5] == 0xc000_0081 && list[6] == 0xc000_0082 && list[7]
        == 0xc000_0083 && list[8] == 0xc000_0084 && list[9] == 0xc000_0100 && list[10]
        == 0xc000_0101 && list[11] == 0xc000_0102 && list[12] == 0xc000_0103);
    if msr_bits(backend, msr) is Some {
        let (read, write) = msr_bits(backend, msr)->0;
        assert(bit_of_msr(backend, msr, read) && bit_of_msr(backend, msr, write));
        if is_allowed_bit(backend, read, 13) {
            law_only_listed_registers_are_open(backend, msr, read);
        }
        if is_allowed_bit(backend, write, 13) {
            law_only_listed_registers_are_open(backend, msr, write);
        }
        if is_listed(msr) {
            let k: int = if msr <= 0x176 {
                msr - 0x174
            } else if msr == 0x277 {
                3
            } else if msr <= 0xc000_0084 {
                msr - 0xc000_0080 + 4
            } else {
                msr - 0xc000_0100 + 9
            };
            assert(list[k] == msr);
        }
    }
}

/// Where the processor looks: on Intel four bitmaps of one KiB, reads of the low and the
/// high registers and then writes of both; on AMD two adjacent bits for each register, in
/// three ranges of 8192 registers, the read first.
pub proof fn law_map_has_the_processors_layout(msr: u32)
    ensures
        msr_bits(BackendKind::IntelVmx, msr) == (if msr < 0x2000 {
            Some((msr as int, 0x4000 + msr))
        } else if 0xc000_0000 <= msr < 0xc000_2000 {
            Some((0x2000 + msr - 0xc000_0000, 0x6000 + msr - 0xc000_0000))
        } else {
            None
        }),
        msr_bits(BackendKind::AmdSvm, msr) matches Some((read, write)) ==> write == read + 1 && read
            % 2 == 0 && 0 <= read < 0x1_8000,
        msr < 0x2000 ==> msr_bits(BackendKind::AmdSvm, msr) == Some((2 * msr, 2 * msr + 1)),
        0xc000_0000 <= msr < 0xc000_2000 ==> msr_bits(BackendKind::AmdSvm, msr) == Some(
            (0x4000 + 2 * (msr - 0xc000_0000), 0x4000 + 2 * (msr - 0xc000_0000) + 1),
        ),
        0xc001_0000 <= msr < 0xc001_2000 ==> msr_bits(BackendKind::AmdSvm, msr) == Some(
            (0x8000 + 2 * (msr - 0xc001_0000), 0x8000 + 2 * (msr - 0xc001_0000) + 1),
        ),
{
}

} // verus!
