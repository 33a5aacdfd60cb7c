//! What is particular to 64-bit x86.

pub mod descriptor;
pub mod timer;
pub mod vmx;

use vstd::prelude::*;

verus! {

/// The legacy floating-point state of a virtual CPU. Guests see x87 and SSE, not
/// XSAVE or AVX.
#[derive(Clone, Copy, Debug)]
pub struct FxState {
    pub bytes: [u8; 512],
}

/// A byte of the state after a reset: the control words mask all exceptions.
pub open spec fn reset_byte(i: int) -> u8 {
    if i == 0 {
        0x7f
    } else if i == 1 {
        0x03
    } else if i == 24 {
        0x80
    } else if i == 25 {
        0x1f
    } else {
        0
    }
}

impl Default for FxState {
    fn default() -> (r: Self)
        ensures
            forall|i: int| 0 <= i < 512 ==> #[trigger] r.bytes@[i] == reset_byte(i),
    {
        let mut bytes: [u8; 512] = [0; 512];
        bytes[0] = 0x7f;
        bytes[1] = 0x03;
        bytes[24] = 0x80;
        bytes[25] = 0x1f;
        FxState { bytes }
    }
}

/// After a reset the x87 control word is 0x037f and MXCSR is 0x1f80, both little endian in
/// the state, and everything else is zero.
pub proof fn law_reset_state_masks_every_exception(i: int)
    ensures
        reset_byte(0) + 0x100 * reset_byte(1) == 0x037f,
        reset_byte(24) + 0x100 * reset_byte(25) + 0x1_0000 * reset_byte(26) + 0x100_0000
            * reset_byte(27) == 0x1f80,
        i != 0 && i != 1 && i != 24 && i != 25 ==> reset_byte(i) == 0,
{
}

} // verus!
