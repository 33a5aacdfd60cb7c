//! The serial port that mBoot logs to.

use vstd::prelude::*;

verus! {

pub const COM1: u16 = 0x3f8;

/// The transmitter can take another byte.
pub const TRANSMITTER_EMPTY: u8 = 0x20;

/// The port writes that set the line up: 38400 baud, eight bits, no parity.
pub open spec fn setup() -> Seq<(u16, u8)> {
    seq![
        (0x3f9u16, 0x00u8),
        (0x3fbu16, 0x80u8),
        (0x3f8u16, 0x03u8),
        (0x3f9u16, 0x00u8),
        (0x3fbu16, 0x03u8),
        (0x3fau16, 0xc7u8),
        (0x3fcu16, 0x0bu8),
    ]
}

/// The first `n` bytes as they go over the line: a carriage return comes before
/// every newline.
pub open spec fn encoded(text: Seq<u8>, n: int) -> Seq<u8>
    decreases n,
{
    if n <= 0 {
        Seq::empty()
    } else if text[n - 1] == 10 {
        encoded(text, n - 1).push(13).push(10)
    } else {
        encoded(text, n - 1).push(text[n - 1])
    }
}

/// The port writes that set the line up, in order.
pub fn init() -> (r: Vec<(u16, u8)>)
    ensures
        r@ == setup(),
{
    let mut writes: Vec<(u16, u8)> = Vec::new();
    writes.push((COM1 + 1, 0x00));
    writes.push((COM1 + 3, 0x80));
    writes.push((COM1, 0x03));
    writes.push((COM1 + 1, 0x00));
    writes.push((COM1 + 3, 0x03));
    writes.push((COM1 + 2, 0xc7));
    writes.push((COM1 + 4, 0x0b));
    assert(writes@ =~= setup());
    writes
}

/// Whether the line status allows another byte.
pub fn transmitter_ready(status: u8) -> (r: bool)
    ensures
        r == (status & TRANSMITTER_EMPTY != 0),
{
    status & TRANSMITTER_EMPTY != 0
}

/// The bytes of a text as they go over the line.
pub fn encode(text: &[u8]) -> (r: Vec<u8>)
    ensures
        r@ == encoded(text@, text@.len() as int),
{
    let mut bytes: Vec<u8> = Vec::new();
    let mut i: usize = 0;
    while i < text.len()
        invariant
            i <= text@.len(),
            bytes@ == encoded(text@, i as int),
        decreases text@.len() - i,
    {
        if text[i] == 10 {
            bytes.push(13);
        }
        bytes.push(text[i]);
        i += 1;
    }
    bytes
}

/// Texts go over the line one after the other: what is sent for two texts is what is sent
/// for the first and then for the second.
pub proof fn law_texts_are_sent_in_order(a: Seq<u8>, b: Seq<u8>, n: int)
    requires
        0 <= n <= b.len(),
    ensures
        encoded(a + b, a.len() + n) == encoded(a, a.len() as int) + encoded(b, n),
    decreases n,
{
    if n > 0 {
        law_texts_are_sent_in_order(a, b, n - 1);
        assert((a + b)[a.len() + n - 1] == b[n - 1]);
        assert(encoded(a + b, a.len() + n) =~= encoded(a, a.len() as int) + encoded(b, n));
    } else {
        lemma_encoded_prefix(a, b, a.len() as int);
        assert(encoded(a, a.len() as int) + encoded(b, 0) =~= encoded(a, a.len() as int));
    }
}

proof fn lemma_encoded_prefix(a: Seq<u8>, b: Seq<u8>, n: int)
    requires
        0 <= n <= a.len(),
    ensures
        encoded(a + b, n) == encoded(a, n),
    decreases n,
{
    if n > 0 {
        lemma_encoded_prefix(a, b, n - 1);
        assert((a + b)[n - 1] == a[n - 1]);
    }
}

/// A newline goes over the line behind a carriage return, every other byte as it is.
pub proof fn law_newlines_return_the_carriage(byte: u8)
    ensures
        encoded(seq![byte], 1) == (if byte == 0x0a {
            seq![0x0du8, 0x0au8]
        } else {
            seq![byte]
        }),
{
    reveal_with_fuel(encoded, 2);
    assert(encoded(seq![byte], 1) =~= (if byte == 0x0a {
        seq![0x0du8, 0x0au8]
    } else {
        seq![byte]
    }));
}

/// What the last write to a port left there while the divisor could be reached or not.
pub open spec fn last_byte(writes: Seq<(u16, u8)>, n: int, port: u16) -> Option<u8>
    decreases n,
{
    if n <= 0 {
        None
    } else if writes[n - 1].0 == port {
        Some(writes[n - 1].1)
    } else {
        last_byte(writes, n - 1, port)
    }
}

/// The line is set up without interrupts. Its divisor is three, of 115200 baud: both halves
/// (0x3f8 and 0x3f9) are written while bit 7 of the line control at 0x3fb gives access to
/// them. That bit is then cleared with eight bits, no parity and one stop bit, the queues
/// are enabled and cleared, and the modem lines raised.
pub proof fn law_line_is_set_up()
    ensures
        setup().len() == 7,
        last_byte(setup(), 1, 0x3f9) == Some(0u8),
        last_byte(setup(), 4, 0x3fb) == Some(0x80u8),
        last_byte(setup(), 2, 0x3fb) == Some(0x80u8),
        last_byte(setup(), 4, 0x3f8) == Some(3u8),
        last_byte(setup(), 4, 0x3f9) == Some(0u8),
        last_byte(setup(), 7, 0x3f8) == Some(3u8),
        last_byte(setup(), 7, 0x3fb) == Some(3u8),
        last_byte(setup(), 7, 0x3fa) == Some(0xc7u8),
        last_byte(setup(), 7, 0x3fc) == Some(0x0bu8),
{
    reveal_with_fuel(last_byte, 9);
}

} // verus!
