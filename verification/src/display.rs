//! What mBoot shows on the firmware's framebuffer.

use vstd::prelude::*;
use vstd::slice::slice_to_vec;
use vstd::string::*;
use vstd::utf8::encode_utf8;

use crate::boot_log::{changed, screen as shown, with_bytes, BootLog, Cell, COLUMNS, LINES};
use crate::pci::BarProbeFailure;

verus! {

/// The background of a screen that reports a failure.
pub const FAILURE_COLOR: u32 = 0x006b_2028;

/// The background of a screen that reports progress.
pub const PROGRESS_COLOR: u32 = 0;

pub const TEXT_COLOR: u32 = 0x00f4_f6fa;

pub const CONSOLE_COLOR: u32 = 0x00cc_cccc;

/// Red in the lowest byte of a pixel.
pub const ORDER_RGB: u8 = 1;

/// Blue in the lowest byte of a pixel.
pub const ORDER_BGR: u8 = 2;

/// No side of a screen is longer.
pub const MAX_SIDE: usize = 0x7fff_ffff;

/// Seven rows of five dots for each character from the space on.
pub const FONT: [u8; 448] = [
    0x00, 0x00, 0x00, 0x00, 0x00, 0x00, 0x00,
    0x00, 0x00, 0x00, 0x00, 0x00, 0x00, 0x00,
    0x00, 0x00, 0x00, 0x00, 0x00, 0x00, 0x00,
    0x00, 0x00, 0x00, 0x00, 0x00, 0x00, 0x00,
    0x00, 0x00, 0x00, 0x00, 0x00, 0x00, 0x00,
    0x00, 0x00, 0x00, 0x00, 0x00, 0x00, 0x00,
    0x00, 0x00, 0x00, 0x00, 0x00, 0x00, 0x00,
    0x00, 0x00, 0x00, 0x00, 0x00, 0x00, 0x00,
    0x02, 0x04, 0x08, 0x08, 0x08, 0x04, 0x02,
    0x08, 0x04, 0x02, 0x02, 0x02, 0x04, 0x08,
    0x00, 0x00, 0x00, 0x00, 0x00, 0x00, 0x00,
    0x00, 0x00, 0x00, 0x00, 0x00, 0x00, 0x00,
    0x00, 0x00, 0x00, 0x00, 0x00, 0x00, 0x00,
    0x00, 0x00, 0x00, 0x1f, 0x00, 0x00, 0x00,
    0x00, 0x00, 0x00, 0x00, 0x00, 0x04, 0x04,
    0x01, 0x02, 0x02, 0x04, 0x08, 0x08, 0x10,
    0x0e, 0x11, 0x13, 0x15, 0x19, 0x11, 0x0e,
    0x04, 0x0c, 0x04, 0x04, 0x04, 0x04, 0x0e,
    0x0e, 0x11, 0x01, 0x02, 0x04, 0x08, 0x1f,
    0x1e, 0x01, 0x01, 0x0e, 0x01, 0x01, 0x1e,
    0x02, 0x06, 0x0a, 0x12, 0x1f, 0x02, 0x02,
    0x1f, 0x10, 0x10, 0x1e, 0x01, 0x01, 0x1e,
    0x0e, 0x10, 0x10, 0x1e, 0x11, 0x11, 0x0e,
    0x1f, 0x01, 0x02, 0x04, 0x08, 0x08, 0x08,
    0x0e, 0x11, 0x11, 0x0e, 0x11, 0x11, 0x0e,
    0x0e, 0x11, 0x11, 0x0f, 0x01, 0x01, 0x0e,
    0x00, 0x04, 0x04, 0x00, 0x04, 0x04, 0x00,
    0x00, 0x00, 0x00, 0x00, 0x00, 0x00, 0x00,
    0x00, 0x00, 0x00, 0x00, 0x00, 0x00, 0x00,
    0x00, 0x00, 0x1f, 0x00, 0x1f, 0x00, 0x00,
    0x00, 0x10, 0x08, 0x04, 0x08, 0x10, 0x00,
    0x00, 0x00, 0x00, 0x00, 0x00, 0x00, 0x00,
    0x00, 0x00, 0x00, 0x00, 0x00, 0x00, 0x00,
    0x0e, 0x11, 0x11, 0x1f, 0x11, 0x11, 0x11,
    0x1e, 0x11, 0x11, 0x1e, 0x11, 0x11, 0x1e,
    0x0f, 0x10, 0x10, 0x10, 0x10, 0x10, 0x0f,
    0x1e, 0x11, 0x11, 0x11, 0x11, 0x11, 0x1e,
    0x1f, 0x10, 0x10, 0x1e, 0x10, 0x10, 0x1f,
    0x1f, 0x10, 0x10, 0x1e, 0x10, 0x10, 0x10,
    0x0e, 0x11, 0x10, 0x17, 0x11, 0x11, 0x0e,
    0x11, 0x11, 0x11, 0x1f, 0x11, 0x11, 0x11,
    0x1f, 0x04, 0x04, 0x04, 0x04, 0x04, 0x1f,
    0x07, 0x02, 0x02, 0x02, 0x12, 0x12, 0x0c,
    0x11, 0x12, 0x14, 0x18, 0x14, 0x12, 0x11,
    0x10, 0x10, 0x10, 0x10, 0x10, 0x10, 0x1f,
    0x11, 0x1b, 0x15, 0x15, 0x11, 0x11, 0x11,
    0x11, 0x19, 0x15, 0x13, 0x11, 0x11, 0x11,
    0x0e, 0x11, 0x11, 0x11, 0x11, 0x11, 0x0e,
    0x1e, 0x11, 0x11, 0x1e, 0x10, 0x10, 0x10,
    0x0e, 0x11, 0x11, 0x11, 0x15, 0x12, 0x0d,
    0x1e, 0x11, 0x11, 0x1e, 0x14, 0x12, 0x11,
    0x0f, 0x10, 0x10, 0x0e, 0x01, 0x01, 0x1e,
    0x1f, 0x04, 0x04, 0x04, 0x04, 0x04, 0x04,
    0x11, 0x11, 0x11, 0x11, 0x11, 0x11, 0x0e,
    0x11, 0x11, 0x11, 0x11, 0x11, 0x0a, 0x04,
    0x11, 0x11, 0x11, 0x15, 0x15, 0x15, 0x0a,
    0x11, 0x11, 0x0a, 0x04, 0x0a, 0x11, 0x11,
    0x11, 0x11, 0x0a, 0x04, 0x04, 0x04, 0x04,
    0x1f, 0x01, 0x02, 0x04, 0x08, 0x10, 0x1f,
    0x00, 0x00, 0x00, 0x00, 0x00, 0x00, 0x00,
    0x00, 0x00, 0x00, 0x00, 0x00, 0x00, 0x00,
    0x00, 0x00, 0x00, 0x00, 0x00, 0x00, 0x00,
    0x00, 0x00, 0x00, 0x00, 0x00, 0x00, 0x00,
    0x00, 0x00, 0x00, 0x00, 0x00, 0x00, 0x1f,
];

#[derive(Clone, Copy, Debug, PartialEq, Eq, Structural)]
pub struct FramebufferInfo {
    pub address: u64,
    pub size: u64,
    pub width: u32,
    pub height: u32,
    pub stride: u32,
    pub format: u32,
}

/// The framebuffer while mBoot owns it.
pub struct Screen {
    address: u64,
    width: usize,
    height: usize,
    stride: usize,
    order: u8,
    pixels: Vec<u32>,
}

#[verifier::ext_equal]
pub struct ScreenView {
    pub address: u64,
    pub width: int,
    pub height: int,
    pub stride: int,
    pub order: u8,
    pub pixels: Seq<u32>,
}

impl View for Screen {
    type V = ScreenView;

    closed spec fn view(&self) -> ScreenView {
        ScreenView {
            address: self.address,
            width: self.width as int,
            height: self.height as int,
            stride: self.stride as int,
            order: self.order,
            pixels: self.pixels@,
        }
    }
}

/// A screen whose rows fit, with a pixel for each of them; one without an address
/// has none.
pub open spec fn is_screen(s: ScreenView) -> bool {
    &&& 0 <= s.width <= s.stride <= MAX_SIDE
    &&& 0 <= s.height <= MAX_SIDE
    &&& s.pixels.len() == s.stride * s.height
    &&& s.address == 0 ==> s.width == 0 && s.height == 0 && s.stride == 0
}

/// The screen once it has been handed off.
pub open spec fn no_screen() -> ScreenView {
    ScreenView { address: 0, width: 0, height: 0, stride: 0, order: 0, pixels: Seq::empty() }
}

/// Where there is no screen, drawing does not make one.
#[verifier::opaque]
pub open spec fn stays_off(before: ScreenView, after: ScreenView) -> bool {
    before == no_screen() ==> after == no_screen()
}

/// A colour in the order of the framebuffer.
pub open spec fn native(order: u8, rgb: u32) -> u32 {
    if order == ORDER_RGB {
        ((rgb >> 16) & 0xff) | (rgb & 0x00ff00) | ((rgb & 0xff) << 16)
    } else {
        rgb
    }
}

pub open spec fn uppercase(c: u8) -> u8 {
    if 0x61 <= c <= 0x7a {
        (c - 0x20) as u8
    } else {
        c
    }
}

/// A row of a character; characters that the font lacks are blank.
pub open spec fn glyph_row(c: u8, row: int) -> u8 {
    let up = uppercase(c);
    if 0x20 <= up <= 0x5f {
        FONT@[7 * (up - 0x20) + row]
    } else {
        0
    }
}

/// What is painted: everything, a line of text, or a cell of the console.
pub enum Brush {
    Fill { color: u32 },
    Text { text: Vec<u8>, left: usize, top: usize, scale: usize },
    Cell { glyph: [u8; 16], left: usize, top: usize, scale: usize },
}

/// Where text is lit: the character, its column and its row all follow from the
/// distance to the upper left corner.
pub open spec fn is_lit(text: Seq<u8>, left: int, top: int, scale: int, x: int, y: int) -> bool {
    let index = (x - left) / (6 * scale);
    let column = (x - left) % (6 * scale) / scale;
    let row = (y - top) / scale;
    &&& x >= left && y >= top
    &&& index < text.len() && column < 5 && row < 7
    &&& (glyph_row(text[index], row) >> ((4 - column) as u8)) & 1 == 1
}

/// The colour of a pixel, if it is painted.
pub open spec fn ink(brush: Brush, x: int, y: int) -> Option<u32> {
    match brush {
        Brush::Fill { color } => Some(color),
        Brush::Text { text, left, top, scale } => if is_lit(
            text@,
            left as int,
            top as int,
            scale as int,
            x,
            y,
        ) {
            Some(TEXT_COLOR)
        } else {
            None
        },
        Brush::Cell { glyph, left, top, scale } => {
            let column = (x - left) / (scale as int);
            let row = (y - top) / (scale as int);
            if x < left || y < top || column >= 8 || row >= 16 {
                None
            } else if (glyph@[row] >> ((7 - column) as u8)) & 1 == 1 {
                Some(CONSOLE_COLOR)
            } else {
                Some(0)
            }
        },
    }
}

/// A pixel after painting. Only the visible part of a row is painted.
pub open spec fn painted_pixel(s: ScreenView, brush: Brush, i: int) -> u32 {
    let x = i % s.stride;
    let y = i / s.stride;
    if x < s.width {
        match ink(brush, x, y) {
            Some(color) => native(s.order, color),
            None => s.pixels[i],
        }
    } else {
        s.pixels[i]
    }
}

/// The screen after painting.
pub open spec fn painted(s: ScreenView, brush: Brush) -> ScreenView {
    ScreenView {
        pixels: Seq::new(s.pixels.len(), |i: int| painted_pixel(s, brush, i)),
        ..s
    }
}

/// The size of a dot of the report font.
pub open spec fn dot(width: int) -> int {
    if width >= 800 {
        8
    } else {
        4
    }
}

pub open spec fn at_least_zero(x: int) -> int {
    if x < 0 {
        0
    } else {
        x
    }
}

/// Where a line of a report is.
pub open spec fn line_top(s: ScreenView, line: int) -> int {
    at_least_zero(s.height - 27 * dot(s.width)) / 2 + line * 10 * dot(s.width)
}

/// Where text of this length is to be centered.
pub open spec fn text_left(s: ScreenView, length: int) -> int {
    at_least_zero(s.width - at_least_zero(6 * length * dot(s.width) - dot(s.width))) / 2
}

/// A pixel of the screen with a centered line of text on it.
pub open spec fn lined_pixel(s: ScreenView, text: Seq<u8>, line: int, i: int) -> u32 {
    let x = i % s.stride;
    let y = i / s.stride;
    if x < s.width && is_lit(
        text,
        text_left(s, text.len() as int),
        line_top(s, line),
        dot(s.width),
        x,
        y,
    ) {
        native(s.order, TEXT_COLOR)
    } else {
        s.pixels[i]
    }
}

/// The screen with a centered line of text on it.
pub open spec fn lined(s: ScreenView, text: Seq<u8>, line: int) -> ScreenView {
    ScreenView {
        pixels: Seq::new(s.pixels.len(), |i: int| lined_pixel(s, text, line, i)),
        ..s
    }
}

/// The screen in one colour.
pub open spec fn filled(s: ScreenView, color: u32) -> ScreenView {
    ScreenView {
        pixels: Seq::new(
            s.pixels.len(),
            |i: int|
                if i % s.stride < s.width {
                    native(s.order, color)
                } else {
                    s.pixels[i]
                },
        ),
        ..s
    }
}

/// The first `n` lines of a report, one below the other on one colour.
pub open spec fn reported(s: ScreenView, color: u32, lines: Seq<Seq<u8>>, n: int) -> ScreenView
    decreases n,
{
    if n <= 0 {
        filled(s, color)
    } else {
        lined(reported(s, color, lines, n - 1), lines[n - 1], n - 1)
    }
}

/// A report of a failure.
pub open spec fn shows_failure(before: ScreenView, after: ScreenView, lines: Seq<Seq<u8>>) -> bool {
    after == reported(before, FAILURE_COLOR, lines, lines.len() as int)
}

/// A report of progress.
pub open spec fn shows_progress(
    before: ScreenView,
    after: ScreenView,
    lines: Seq<Seq<u8>>,
) -> bool {
    after == reported(before, PROGRESS_COLOR, lines, lines.len() as int)
}

pub open spec fn hex_digit(nibble: int) -> u8 {
    if nibble < 10 {
        (0x30 + nibble) as u8
    } else {
        (0x41 + nibble - 10) as u8
    }
}

/// The last two digits of a number.
pub open spec fn hex2(value: int) -> Seq<u8> {
    seq![hex_digit(value / 0x10 % 16), hex_digit(value % 16)]
}

/// The last four digits of a number.
pub open spec fn hex4(value: int) -> Seq<u8> {
    seq![
        hex_digit(value / 0x1000 % 16),
        hex_digit(value / 0x100 % 16),
        hex_digit(value / 0x10 % 16),
        hex_digit(value % 16),
    ]
}

/// The last eight digits of a number.
pub open spec fn hex8(value: int) -> Seq<u8> {
    seq![
        hex_digit(value / 0x1000_0000 % 16),
        hex_digit(value / 0x100_0000 % 16),
        hex_digit(value / 0x10_0000 % 16),
        hex_digit(value / 0x1_0000 % 16),
        hex_digit(value / 0x1000 % 16),
        hex_digit(value / 0x100 % 16),
        hex_digit(value / 0x10 % 16),
        hex_digit(value % 16),
    ]
}

pub open spec fn ascii(text: Seq<char>) -> Seq<u8> {
    encode_utf8(text)
}

fn digit(nibble: u8) -> (r: u8)
    requires
        nibble < 16,
    ensures
        r == hex_digit(nibble as int),
{
    if nibble < 10 {
        0x30 + nibble
    } else {
        0x41 + (nibble - 10)
    }
}

fn push_hex2(text: &mut Vec<u8>, value: u64)
    ensures
        final(text)@ == old(text)@ + hex2(value as int),
{
    text.push(digit((value / 0x10 % 16) as u8));
    text.push(digit((value % 16) as u8));
    assert(text@ =~= old(text)@ + hex2(value as int));
}

fn push_hex4(text: &mut Vec<u8>, value: u64)
    ensures
        final(text)@ == old(text)@ + hex4(value as int),
{
    text.push(digit((value / 0x1000 % 16) as u8));
    text.push(digit((value / 0x100 % 16) as u8));
    text.push(digit((value / 0x10 % 16) as u8));
    text.push(digit((value % 16) as u8));
    assert(text@ =~= old(text)@ + hex4(value as int));
}

fn push_hex8(text: &mut Vec<u8>, value: u64)
    ensures
        final(text)@ == old(text)@ + hex8(value as int),
{
    text.push(digit((value / 0x1000_0000 % 16) as u8));
    text.push(digit((value / 0x100_0000 % 16) as u8));
    text.push(digit((value / 0x10_0000 % 16) as u8));
    text.push(digit((value / 0x1_0000 % 16) as u8));
    text.push(digit((value / 0x1000 % 16) as u8));
    text.push(digit((value / 0x100 % 16) as u8));
    text.push(digit((value / 0x10 % 16) as u8));
    text.push(digit((value % 16) as u8));
    assert(text@ =~= old(text)@ + hex8(value as int));
}

/// The bytes of each line.
#[verifier::opaque]
pub open spec fn texts(lines: Seq<Vec<u8>>) -> Seq<Seq<u8>> {
    lines.map_values(|v: Vec<u8>| v@)
}

/// A report without lines.
fn no_lines() -> (r: Vec<Vec<u8>>)
    ensures
        r@.len() == 0,
        texts(r@) == Seq::<Seq<u8>>::empty(),
{
    reveal(texts);
    let lines: Vec<Vec<u8>> = Vec::new();
    assert(texts(lines@) =~= Seq::<Seq<u8>>::empty());
    lines
}

/// The bytes of a text.
fn line(text: &str) -> (r: Vec<u8>)
    ensures
        r@ == ascii(text@),
{
    slice_to_vec(text.as_bytes())
}

impl Brush {
    spec fn wf(self) -> bool {
        match self {
            Brush::Fill { .. } => true,
            Brush::Text { scale, .. } => 1 <= scale <= 8,
            Brush::Cell { scale, .. } => 1 <= scale <= 8,
        }
    }

    fn color_at(&self, x: usize, y: usize) -> (r: Option<u32>)
        requires
            self.wf(),
        ensures
            r == ink(*self, x as int, y as int),
    {
        match self {
            Brush::Fill { color } => Some(*color),
            Brush::Text { text, left, top, scale } => {
                if x < *left || y < *top {
                    return None;
                }
                let index: usize = (x - *left) / (6 * *scale);
                let column: usize = (x - *left) % (6 * *scale) / *scale;
                let row: usize = (y - *top) / *scale;
                if index >= text.len() || column >= 5 || row >= 7 {
                    return None;
                }
                let bits: u8 = glyph(text[index], row);
                let shift: u8 = (4 - column) as u8;
                if (bits >> shift) & 1 == 1 {
                    Some(TEXT_COLOR)
                } else {
                    None
                }
            },
            Brush::Cell { glyph, left, top, scale } => {
                if x < *left || y < *top {
                    return None;
                }
                let column: usize = (x - *left) / *scale;
                let row: usize = (y - *top) / *scale;
                if column >= 8 || row >= 16 {
                    return None;
                }
                let shift: u8 = (7 - column) as u8;
                if (glyph[row] >> shift) & 1 == 1 {
                    Some(CONSOLE_COLOR)
                } else {
                    Some(0)
                }
            },
        }
    }
}

/// A row of a character. The font has capitals only, so that lowercase text
/// remains readable.
fn glyph(c: u8, row: usize) -> (r: u8)
    requires
        row < 7,
    ensures
        r == glyph_row(c, row as int),
{
    let up: u8 = if c >= 0x61 && c <= 0x7a {
        c - 0x20
    } else {
        c
    };
    if up >= 0x20 && up <= 0x5f {
        let font = FONT;
        font[7 * (up - 0x20) as usize + row]
    } else {
        0
    }
}

impl Screen {
    pub open spec fn wf(&self) -> bool {
        is_screen(self@)
    }

    /// The screen before a framebuffer is known.
    pub fn new() -> (r: Self)
        ensures
            r.wf(),
            r@ == no_screen(),
    {
        Screen { address: 0, width: 0, height: 0, stride: 0, order: 0, pixels: Vec::new() }
    }

    pub fn pixels(&self) -> (r: &[u32])
        ensures
            r@ == self@.pixels,
    {
        self.pixels.as_slice()
    }

    fn native_color(&self, rgb: u32) -> (r: u32)
        ensures
            r == native(self@.order, rgb),
    {
        if self.order == ORDER_RGB {
            ((rgb >> 16) & 0xff) | (rgb & 0x00ff00) | ((rgb & 0xff) << 16)
        } else {
            rgb
        }
    }

    fn paint(&mut self, brush: &Brush)
        requires
            old(self).wf(),
            brush.wf(),
        ensures
            final(self).wf(),
            final(self)@ == painted(old(self)@, *brush),
    {
        let ghost before = self@;
        let mut i: usize = 0;
        while i < self.pixels.len()
            invariant
                brush.wf(),
                is_screen(before),
                self@.address == before.address,
                self@.width == before.width,
                self@.height == before.height,
                self@.stride == before.stride,
                self@.order == before.order,
                self.pixels@.len() == before.pixels.len(),
                i <= self.pixels.len(),
                forall|j: int|
                    0 <= j < i ==> #[trigger] self.pixels@[j] == painted_pixel(before, *brush, j),
                forall|j: int|
                    i <= j < self.pixels@.len() ==> #[trigger] self.pixels@[j]
                        == before.pixels[j],
            decreases self.pixels@.len() - i,
        {
            assert(self.stride > 0) by {
                if before.stride == 0 {
                    assert(before.stride * before.height == 0) by (nonlinear_arith)
                        requires
                            before.stride == 0,
                    ;
                }
            }
            let x: usize = i % self.stride;
            let y: usize = i / self.stride;
            if x < self.width {
                if let Some(color) = brush.color_at(x, y) {
                    let pixel: u32 = self.native_color(color);
                    self.pixels[i] = pixel;
                }
            }
            i += 1;
        }
        assert(self@ =~= painted(before, *brush));
    }

    fn fill(&mut self, color: u32)
        requires
            old(self).wf(),
        ensures
            final(self).wf(),
            final(self)@ == filled(old(self)@, color),
    {
        let brush = Brush::Fill { color };
        self.paint(&brush);
        assert(painted(old(self)@, brush) =~= filled(old(self)@, color));
    }

    fn scale(&self) -> (r: usize)
        ensures
            r == dot(self@.width),
    {
        if self.width >= 800 {
            8
        } else {
            4
        }
    }

    /// Draws a centered line of text.
    fn draw_centered(&mut self, text: &Vec<u8>, line: usize)
        requires
            old(self).wf(),
            line < 16,
        ensures
            final(self).wf(),
            final(self)@ == lined(old(self)@, text@, line as int),
    {
        let scale: usize = self.scale();
        let total: usize = 27 * scale;
        let free: usize = if self.height > total {
            self.height - total
        } else {
            0
        };
        let top: usize = free / 2 + line * 10 * scale;
        let left: usize = if text.len() > 0x1000_0000 {
            0
        } else if text.len() == 0 {
            self.width / 2
        } else {
            let wide: u64 = if scale == 8 {
                48 * text.len() as u64 - 8
            } else {
                24 * text.len() as u64 - 4
            };
            if (self.width as u64) > wide {
                (self.width - wide as usize) / 2
            } else {
                0
            }
        };
        proof {
            assert(left == text_left(self@, text@.len() as int));
            assert(top == line_top(self@, line as int));
        }
        let brush = Brush::Text { text: slice_to_vec(text.as_slice()), left, top, scale };
        self.paint(&brush);
        assert(painted(old(self)@, brush) =~= lined(old(self)@, text@, line as int));
    }

    /// Shows lines one below the other on one colour.
    fn report(&mut self, color: u32, lines: &Vec<Vec<u8>>)
        requires
            old(self).wf(),
            lines@.len() <= 8,
        ensures
            final(self).wf(),
            stays_off(old(self)@, final(self)@),
            final(self)@ == reported(
                old(self)@,
                color,
                texts(lines@),
                lines@.len() as int,
            ),
    {
        reveal(texts);
        let ghost shown_lines = texts(lines@);
        self.fill(color);
        let mut i: usize = 0;
        while i < lines.len()
            invariant
                self.wf(),
                lines@.len() <= 8,
                shown_lines == texts(lines@),
                i <= lines@.len(),
                self@ == reported(old(self)@, color, shown_lines, i as int),
            decreases lines@.len() - i,
        {
            proof {
                reveal(texts);
            }
            self.draw_centered(&lines[i], i);
            i += 1;
        }
        proof {
            reveal(stays_off);
            lemma_no_report(color, shown_lines, lines@.len() as int);
        }
    }
}

/// Uses the framebuffer that firmware describes, if its rows are pixels of a
/// known order and it is large enough.
pub fn initialize(
    screen: &mut Screen,
    address: u64,
    width: usize,
    height: usize,
    stride: usize,
    order: u8,
    pixels: Vec<u32>,
) -> (r: bool)
    requires
        old(screen).wf(),
        width <= stride <= MAX_SIDE,
        height <= MAX_SIDE,
        address != 0,
        pixels@.len() <= stride * height,
    ensures
        final(screen).wf(),
        r == ((order == ORDER_RGB || order == ORDER_BGR) && pixels@.len() == stride * height),
        final(screen)@ == (if r {
            ScreenView {
                address,
                width: width as int,
                height: height as int,
                stride: stride as int,
                order,
                pixels: pixels@,
            }
        } else {
            old(screen)@
        }),
{
    if order != ORDER_RGB && order != ORDER_BGR {
        return false;
    }
    assert(0 <= stride * height <= 0x3fff_ffff_0000_0001) by (nonlinear_arith)
        requires
            0 <= stride <= 0x7fff_ffff,
            0 <= height <= 0x7fff_ffff,
    ;
    if (pixels.len() as u64) < stride as u64 * height as u64 {
        return false;
    }
    *screen = Screen { address, width, height, stride, order, pixels };
    true
}

/// Ends mBoot framebuffer output before the firmware display controller is
/// transferred to mDriver, and gives the pixels back. Serial logging remains
/// available after handoff.
pub fn handoff(screen: &mut Screen) -> (r: Vec<u32>)
    requires
        old(screen).wf(),
    ensures
        final(screen).wf(),
        final(screen)@ == no_screen(),
        r@ == old(screen)@.pixels,
{
    let mut pixels: Vec<u32> = Vec::new();
    std::mem::swap(&mut pixels, &mut screen.pixels);
    screen.address = 0;
    screen.width = 0;
    screen.height = 0;
    screen.stride = 0;
    screen.order = 0;
    pixels
}

/// What a Domain is told of a screen that has pixels.
pub open spec fn description(s: ScreenView) -> Option<FramebufferInfo> {
    if s.address != 0 && s.stride != 0 && s.height != 0 {
        Some(
            FramebufferInfo {
                address: s.address,
                size: (4 * s.stride * s.height) as u64,
                width: s.width as u32,
                height: s.height as u32,
                stride: s.stride as u32,
                format: s.order as u32,
            },
        )
    } else {
        None
    }
}

/// The framebuffer as it can be described to a Domain.
pub fn framebuffer_info(screen: &Screen) -> (r: Option<FramebufferInfo>)
    requires
        screen.wf(),
    ensures
        r == description(screen@),
{
    let stride: u64 = screen.stride as u64;
    let height: u64 = screen.height as u64;
    assert(0 <= stride * height <= 0x3fff_ffff_0000_0001) by (nonlinear_arith)
        requires
            0 <= stride <= 0x7fff_ffff,
            0 <= height <= 0x7fff_ffff,
    ;
    let size: u64 = stride * height * 4;
    assert(4 * stride * height == 4 * (stride * height)) by (nonlinear_arith);
    if screen.address != 0 && screen.stride != 0 && screen.height != 0 {
        Some(
            FramebufferInfo {
                address: screen.address,
                size,
                width: screen.width as u32,
                height: screen.height as u32,
                stride: screen.stride as u32,
                format: screen.order as u32,
            },
        )
    } else {
        None
    }
}

/// The word that shows a pixel of three bytes, blue first.
pub open spec fn pixel_word(format: u32, pixels: Seq<u8>, at: int) -> u32 {
    if format == 2 {
        (pixels[at] + 0x100 * pixels[at + 1] + 0x1_0000 * pixels[at + 2]) as u32
    } else {
        (pixels[at + 2] + 0x100 * pixels[at + 1] + 0x1_0000 * pixels[at]) as u32
    }
}

/// A rectangle of packed pixels that the framebuffer has room for.
pub open spec fn fits(
    info: FramebufferInfo,
    x: u32,
    y: u32,
    width: u32,
    height: u32,
    length: int,
) -> bool {
    &&& width != 0 && height != 0
    &&& x + width <= info.width && y + height <= info.height
    &&& length == 4 * (width * height)
}

/// A word of the framebuffer with the rectangle copied into it.
pub open spec fn presented_word(
    info: FramebufferInfo,
    x: u32,
    y: u32,
    width: u32,
    height: u32,
    pixels: Seq<u8>,
    frame: Seq<u32>,
    i: int,
) -> u32 {
    let column = i % (info.stride as int) - x;
    let row = i / (info.stride as int) - y;
    if 0 <= column < width && 0 <= row < height {
        pixel_word(info.format, pixels, 4 * (row * width + column))
    } else {
        frame[i]
    }
}

/// Copies a bounded, tightly packed pixel rectangle into the firmware scanout.
/// The caller validates that `pixels` belongs to the stopped System Domain.
pub fn present_firmware_frame(
    info: FramebufferInfo,
    frame: &mut Vec<u32>,
    x: u32,
    y: u32,
    width: u32,
    height: u32,
    pixels: &[u8],
) -> (r: bool)
    requires
        info.width <= info.stride,
        old(frame)@.len() == info.stride * info.height,
    ensures
        r == fits(info, x, y, width, height, pixels@.len() as int),
        final(frame)@ == (if r {
            Seq::new(
                old(frame)@.len(),
                |i: int|
                    presented_word(info, x, y, width, height, pixels@, old(frame)@, i),
            )
        } else {
            old(frame)@
        }),
{
    if width == 0 || height == 0 || width > info.width || x > info.width - width || height
        > info.height || y > info.height - height {
        return false;
    }
    assert(0 < width * height <= 0xffff_fffe_0000_0001) by (nonlinear_arith)
        requires
            0 < width <= 0xffff_ffff,
            0 < height <= 0xffff_ffff,
    ;
    let count: u64 = width as u64 * height as u64;
    if pixels.len() % 4 != 0 || (pixels.len() / 4) as u64 != count {
        return false;
    }
    let mut i: usize = 0;
    while i < frame.len()
        invariant
            fits(info, x, y, width, height, pixels.len() as int),
            info.width <= info.stride,
            info.stride > 0,
            frame@.len() == old(frame)@.len(),
            i <= frame@.len(),
            forall|j: int|
                0 <= j < i ==> #[trigger] frame@[j] == presented_word(
                    info,
                    x,
                    y,
                    width,
                    height,
                    pixels@,
                    old(frame)@,
                    j,
                ),
            forall|j: int| i <= j < frame@.len() ==> #[trigger] frame@[j] == old(frame)@[j],
        decreases frame@.len() - i,
    {
        let fx: u64 = i as u64 % info.stride as u64;
        let fy: u64 = i as u64 / info.stride as u64;
        if fx >= x as u64 && fx - (x as u64) < width as u64 && fy >= y as u64 && fy - (y as u64)
            < height as u64 {
            let column: u64 = fx - x as u64;
            let row: u64 = fy - y as u64;
            assert(0 <= row * width && row * width + column < width * height) by (nonlinear_arith)
                requires
                    0 <= row < height,
                    0 <= column < width,
            ;
            let at: usize = (4 * (row * width as u64 + column)) as usize;
            let (low, high): (u8, u8) = if info.format == 2 {
                (pixels[at], pixels[at + 2])
            } else {
                (pixels[at + 2], pixels[at])
            };
            frame[i] = low as u32 + 0x100 * pixels[at + 1] as u32 + 0x1_0000 * high as u32;
        }
        i += 1;
    }
    assert(frame@ =~= Seq::new(
        old(frame)@.len(),
        |i: int| presented_word(info, x, y, width, height, pixels@, old(frame)@, i),
    ));
    true
}

/// Clears the screen for the console.
pub fn text_console_begin(screen: &mut Screen)
    requires
        old(screen).wf(),
    ensures
        stays_off(old(screen)@, final(screen)@),
        final(screen).wf(),
        final(screen)@ == filled(old(screen)@, 0),
{
    screen.fill(0);
    proof {
        reveal(stays_off);
        lemma_no_report(0, Seq::empty(), 0);
    }
}

/// The size of a dot of the console.
pub open spec fn console_dot(s: ScreenView) -> int {
    if s.width >= 1568 && s.height >= 800 {
        2
    } else {
        1
    }
}

/// The character that stands for a byte on the console.
pub open spec fn console_glyph(byte: u8) -> int {
    if byte < 0x20 {
        0
    } else if byte > 0x7e {
        0x5e
    } else {
        byte - 0x20
    }
}

/// A pixel of the screen with a character in a cell of the console.
pub open spec fn celled_pixel(s: ScreenView, cell: Cell, glyph: Seq<u8>, i: int) -> u32 {
    let scale = console_dot(s);
    let x = i % s.stride - (8 + cell.x * 8 * scale);
    let y = i / s.stride - (8 + cell.y * 16 * scale);
    if i % s.stride >= s.width || x < 0 || y < 0 || x / scale >= 8 || y / scale >= 16 {
        s.pixels[i]
    } else if (glyph[y / scale] >> ((7 - x / scale) as u8)) & 1 == 1 {
        native(s.order, CONSOLE_COLOR)
    } else {
        native(s.order, 0)
    }
}

/// The screen with a character in a cell of the console.
pub open spec fn celled(s: ScreenView, cell: Cell, font: Seq<[u8; 16]>) -> ScreenView {
    ScreenView {
        pixels: Seq::new(
            s.pixels.len(),
            |i: int| celled_pixel(s, cell, font[console_glyph(cell.byte)]@, i),
        ),
        ..s
    }
}

/// Draws a character in a cell of the console.
pub fn text_console_cell(screen: &mut Screen, cell: Cell, font: &[[u8; 16]; 95])
    requires
        old(screen).wf(),
        cell.x < COLUMNS,
        cell.y < LINES,
    ensures
        stays_off(old(screen)@, final(screen)@),
        final(screen).wf(),
        final(screen)@ == celled(old(screen)@, cell, font@),
{
    let scale: usize = if screen.width >= 1568 && screen.height >= 800 {
        2
    } else {
        1
    };
    let index: usize = if cell.byte < 0x20 {
        0
    } else if cell.byte > 0x7e {
        0x5e
    } else {
        (cell.byte - 0x20) as usize
    };
    let glyph: [u8; 16] = font[index];
    let left: usize = 8 + cell.x * 8 * scale;
    let top: usize = 8 + cell.y * 16 * scale;
    let brush = Brush::Cell { glyph, left, top, scale };
    screen.paint(&brush);
    assert(painted(old(screen)@, brush) =~= celled(old(screen)@, cell, font@));
    proof {
        reveal(stays_off);
        assert(celled(no_screen(), cell, font@) =~= no_screen());
    }
}

/// The first `n` cells drawn.
pub open spec fn drawn(s: ScreenView, cells: Seq<Cell>, font: Seq<[u8; 16]>, n: int) -> ScreenView
    decreases n,
{
    if n <= 0 {
        s
    } else {
        celled(drawn(s, cells, font, n - 1), cells[n - 1], font)
    }
}

/// The cells that show a text on an empty console.
pub open spec fn page_cells(message: Seq<u8>) -> Seq<Cell> {
    let empty = seq![Seq::<u8>::empty()];
    changed(
        shown(empty),
        shown(with_bytes(empty, message, message.len() as int)),
        COLUMNS * LINES,
    )
}

/// Every cell that changes is on the console.
proof fn lemma_cells(before: Seq<u8>, after: Seq<u8>, n: int)
    requires
        0 <= n <= COLUMNS * LINES,
    ensures
        forall|i: int|
            0 <= i < changed(before, after, n).len() ==> (#[trigger] changed(
                before,
                after,
                n,
            )[i]).x < COLUMNS && changed(before, after, n)[i].y < LINES,
    decreases n,
{
    if n > 0 {
        lemma_cells(before, after, n - 1);
        let few = changed(before, after, n - 1);
        assert((n - 1) / (COLUMNS as int) < LINES);
        assert forall|i: int| 0 <= i < changed(before, after, n).len() implies (
        #[trigger] changed(before, after, n)[i]).x < COLUMNS && changed(before, after, n)[i].y
            < LINES by {
            if i < few.len() {
                assert(few[i].x < COLUMNS && few[i].y < LINES);
            }
        }
    }
}

/// Whether a page can be shown, and the screen with it.
pub open spec fn paged(s: ScreenView, message: Seq<u8>, font: Seq<[u8; 16]>) -> (bool, ScreenView) {
    if s.address != 0 && 1 <= message.len() <= 4096 {
        (true, drawn(filled(s, 0), page_cells(message), font, page_cells(message).len() as int))
    } else {
        (false, s)
    }
}

/// Shows a page of text in the style of the console.
pub fn console_page(screen: &mut Screen, message: &[u8], font: &[[u8; 16]; 95]) -> (r: bool)
    requires
        old(screen).wf(),
    ensures
        stays_off(old(screen)@, final(screen)@),
        final(screen).wf(),
        (r, final(screen)@) == paged(old(screen)@, message@, font@),
{
    reveal(stays_off);
    if screen.address == 0 || message.len() == 0 || message.len() > 4096 {
        return false;
    }
    let mut log = BootLog::new();
    log.append(message);
    let redraw = log.render_console();
    text_console_begin(screen);
    let ghost cleared = screen@;
    proof {
        let empty = seq![Seq::<u8>::empty()];
        lemma_cells(
            shown(empty),
            shown(with_bytes(empty, message@, message@.len() as int)),
            COLUMNS * LINES,
        );
    }
    let mut i: usize = 0;
    while i < redraw.cells.len()
        invariant
            screen.wf(),
            i <= redraw.cells@.len(),
            redraw.cells@ == page_cells(message@),
            forall|j: int|
                0 <= j < page_cells(message@).len() ==> (#[trigger] page_cells(message@)[j]).x
                    < COLUMNS && page_cells(message@)[j].y < LINES,
            screen@ == drawn(cleared, page_cells(message@), font@, i as int),
        decreases redraw.cells@.len() - i,
    {
        let cell = redraw.cells[i];
        assert(cell == page_cells(message@)[i as int]);
        text_console_cell(screen, cell, font);
        i += 1;
    }
    true
}

/// A display's DMA moves on; nothing is shown of it.
pub fn gpu_dma_transition(screen: &mut Screen, _requester: u16, _stage: &[u8])
    requires
        old(screen).wf(),
    ensures
        stays_off(old(screen)@, final(screen)@),
        final(screen)@ == old(screen)@,
        final(screen).wf(),
{
    reveal(stays_off);
}

/// The registers of a unit; nothing is shown of them while all goes well.
pub fn iommu_register_state(
    screen: &mut Screen,
    _requester: u16,
    _status: u32,
    _fault: u32,
    _root: u64,
)
    requires
        old(screen).wf(),
    ensures
        stays_off(old(screen)@, final(screen)@),
        final(screen)@ == old(screen)@,
        final(screen).wf(),
{
    reveal(stays_off);
}

/// The first guest has run; nothing is shown of it.
pub fn bootstrap_success(screen: &mut Screen)
    requires
        old(screen).wf(),
    ensures
        stays_off(old(screen)@, final(screen)@),
        final(screen)@ == old(screen)@,
        final(screen).wf(),
{
    reveal(stays_off);
}

/// The Domains are isolated; nothing is shown of it.
pub fn isolation_success(screen: &mut Screen)
    requires
        old(screen).wf(),
    ensures
        stays_off(old(screen)@, final(screen)@),
        final(screen)@ == old(screen)@,
        final(screen).wf(),
{
    reveal(stays_off);
}

/// A driver looks for devices; nothing is shown of it.
pub fn mdriver_query(screen: &mut Screen, _index: u16, _requester: Option<u16>)
    requires
        old(screen).wf(),
    ensures
        stays_off(old(screen)@, final(screen)@),
        final(screen)@ == old(screen)@,
        final(screen).wf(),
{
    reveal(stays_off);
}

/// A driver claims a device; nothing is shown of it.
pub fn mdriver_claim(screen: &mut Screen, _requester: u16)
    requires
        old(screen).wf(),
    ensures
        stays_off(old(screen)@, final(screen)@),
        final(screen)@ == old(screen)@,
        final(screen).wf(),
{
    reveal(stays_off);
}

/// Shows the kind of virtualization that the machine has.
pub fn backend(screen: &mut Screen, intel: bool)
    requires
        old(screen).wf(),
    ensures
        stays_off(old(screen)@, final(screen)@),
        final(screen).wf(),
        shows_progress(
            old(screen)@,
            final(screen)@,
            if intel {
                seq![ascii("INTEL"@), ascii("VMX"@)]
            } else {
                seq![ascii("AMD"@), ascii("SVM"@)]
            },
        ),
{
    let mut lines = no_lines();
    if intel {
        push_text(&mut lines, "INTEL".as_bytes());
        push_text(&mut lines, "VMX".as_bytes());
        assert(texts(lines@) =~= seq![ascii("INTEL"@), ascii("VMX"@)]);
    } else {
        push_text(&mut lines, "AMD".as_bytes());
        push_text(&mut lines, "SVM".as_bytes());
        assert(texts(lines@) =~= seq![ascii("AMD"@), ascii("SVM"@)]);
    }
    screen.report(PROGRESS_COLOR, &lines);
}

/// Shows that the System Domain has started.
pub fn mochios_ready(screen: &mut Screen)
    requires
        old(screen).wf(),
    ensures
        stays_off(old(screen)@, final(screen)@),
        final(screen).wf(),
        shows_progress(old(screen)@, final(screen)@, seq![ascii("MOCHIOS"@), ascii("OK"@)]),
{
    let mut lines = no_lines();
    push_text(&mut lines, "MOCHIOS".as_bytes());
    push_text(&mut lines, "OK".as_bytes());
    assert(texts(lines@) =~= seq![ascii("MOCHIOS"@), ascii("OK"@)]);
    screen.report(PROGRESS_COLOR, &lines);
}

/// Shows that the Hardware Domain is ready.
pub fn hardware_ready(screen: &mut Screen)
    requires
        old(screen).wf(),
    ensures
        stays_off(old(screen)@, final(screen)@),
        final(screen).wf(),
        shows_progress(old(screen)@, final(screen)@, seq![ascii("Hardware"@), ascii("OK"@)]),
{
    let mut lines = no_lines();
    push_text(&mut lines, "Hardware".as_bytes());
    push_text(&mut lines, "OK".as_bytes());
    assert(texts(lines@) =~= seq![ascii("Hardware"@), ascii("OK"@)]);
    screen.report(PROGRESS_COLOR, &lines);
}

/// The lines of a report that names a device.
pub open spec fn device_lines(title: Seq<u8>, status: Seq<u8>, requester: u16) -> Seq<Seq<u8>> {
    seq![title, status, hex4(requester as int)]
}

fn push_number(lines: &mut Vec<Vec<u8>>, number: u64)
    ensures
        texts(final(lines)@) == texts(old(lines)@).push(hex4(number as int)),
        final(lines)@.len() == old(lines)@.len() + 1,
{
    let mut text: Vec<u8> = Vec::new();
    push_hex4(&mut text, number);
    assert(text@ =~= hex4(number as int));
    lines.push(text);
    reveal(texts);
    assert(texts(lines@) =~= texts(old(lines)@).push(
        hex4(number as int),
    ));
}

fn push_register(lines: &mut Vec<Vec<u8>>, name: &str, value: u64)
    ensures
        texts(final(lines)@) == texts(old(lines)@).push(ascii(name@) + hex8(value as int)),
        final(lines)@.len() == old(lines)@.len() + 1,
{
    let mut text: Vec<u8> = line(name);
    push_hex8(&mut text, value);
    lines.push(text);
    reveal(texts);
    assert(texts(lines@) =~= texts(old(lines)@).push(
        ascii(name@) + hex8(value as int),
    ));
}

fn push_text(lines: &mut Vec<Vec<u8>>, text: &[u8])
    ensures
        texts(final(lines)@) == texts(old(lines)@).push(text@),
        final(lines)@.len() == old(lines)@.len() + 1,
{
    lines.push(slice_to_vec(text));
    reveal(texts);
    assert(texts(lines@) =~= texts(old(lines)@).push(
        text@,
    ));
}

/// Shows the registers of a unit that could not be enabled.
pub fn iommu_register_failure(
    screen: &mut Screen,
    requester: u16,
    status: u32,
    fault: u32,
    root: u64,
)
    requires
        old(screen).wf(),
    ensures
        stays_off(old(screen)@, final(screen)@),
        final(screen).wf(),
        shows_failure(
            old(screen)@,
            final(screen)@,
            seq![
            ascii("IOMMU"@),
            ascii("ENABLE ERROR"@),
            hex4(requester as int),
            ascii("GSTS "@) + hex8(status as int),
            ascii("FSTS "@) + hex8(fault as int),
            ascii("RTLO "@) + hex8(root as int),
        ],
        ),
{
    let mut lines = no_lines();
    push_text(&mut lines, "IOMMU".as_bytes());
    push_text(&mut lines, "ENABLE ERROR".as_bytes());
    push_number(&mut lines, requester as u64);
    push_register(&mut lines, "GSTS ", status as u64);
    push_register(&mut lines, "FSTS ", fault as u64);
    push_register(&mut lines, "RTLO ", root);
    assert(texts(lines@) =~= seq![
            ascii("IOMMU"@),
            ascii("ENABLE ERROR"@),
            hex4(requester as int),
            ascii("GSTS "@) + hex8(status as int),
            ascii("FSTS "@) + hex8(fault as int),
            ascii("RTLO "@) + hex8(root as int),
        ]);
    screen.report(FAILURE_COLOR, &lines);
}

/// Shows why the remapping units could not be taken over.
pub fn iommu_initialization_failure(screen: &mut Screen, detail: &[u8])
    requires
        old(screen).wf(),
    ensures
        stays_off(old(screen)@, final(screen)@),
        final(screen).wf(),
        shows_failure(
            old(screen)@,
            final(screen)@,
            seq![ascii("MBOOT"@), ascii("IOMMU ERROR"@), detail@],
        ),
{
    let mut lines = no_lines();
    push_text(&mut lines, "MBOOT".as_bytes());
    push_text(&mut lines, "IOMMU ERROR".as_bytes());
    push_text(&mut lines, detail);
    assert(texts(lines@) =~= seq![ascii("MBOOT"@), ascii("IOMMU ERROR"@), detail@]);
    screen.report(FAILURE_COLOR, &lines);
}

/// The lines of a report on a Domain that crashed.
pub open spec fn crash_lines(
    domain_id: u32,
    raw_reason: u64,
    address: u64,
    info: u64,
) -> Seq<Seq<u8>> {
    let first = seq![
        ascii("DOMAIN"@),
        ascii("CRASH"@),
        hex2(domain_id as int) + ascii(" "@) + hex4(raw_reason as int),
        ascii("ADDR "@) + hex8(address as int),
    ];
    if raw_reason == 2 {
        first.push(ascii("CR0  "@) + hex8((info / 0x1_0000_0000) as int)).push(
            ascii("CR3  "@) + hex8(info as int),
        )
    } else {
        first.push(ascii("INFO "@) + hex8(info as int))
    }
}

/// Shows where and why a Domain crashed.
pub fn domain_crash(screen: &mut Screen, domain_id: u32, raw_reason: u64, address: u64, info: u64)
    requires
        old(screen).wf(),
    ensures
        stays_off(old(screen)@, final(screen)@),
        final(screen).wf(),
        shows_failure(
            old(screen)@,
            final(screen)@,
            crash_lines(domain_id, raw_reason, address, info),
        ),
{
    let mut lines = no_lines();
    push_text(&mut lines, "DOMAIN".as_bytes());
    push_text(&mut lines, "CRASH".as_bytes());
    let mut detail: Vec<u8> = Vec::new();
    push_hex2(&mut detail, domain_id as u64);
    let mut space: Vec<u8> = line(" ");
    detail.append(&mut space);
    push_hex4(&mut detail, raw_reason);
    proof {
        assert(detail@ =~= hex2(domain_id as int) + ascii(" "@) + hex4(raw_reason as int));
    }
    push_text(&mut lines, detail.as_slice());
    push_register(&mut lines, "ADDR ", address);
    if raw_reason == 2 {
        push_register(&mut lines, "CR0  ", info / 0x1_0000_0000);
        push_register(&mut lines, "CR3  ", info);
    } else {
        push_register(&mut lines, "INFO ", info);
    }
    assert(texts(lines@) =~= crash_lines(
        domain_id,
        raw_reason,
        address,
        info,
    ));
    screen.report(FAILURE_COLOR, &lines);
}

/// Shows at which stage a driver could not claim a device.
pub fn mdriver_claim_failure(screen: &mut Screen, requester: u16, stage: &[u8])
    requires
        old(screen).wf(),
    ensures
        stays_off(old(screen)@, final(screen)@),
        final(screen).wf(),
        shows_failure(
            old(screen)@,
            final(screen)@,
            device_lines(ascii("MDRIVER"@), stage@, requester),
        ),
{
    let mut lines = no_lines();
    push_text(&mut lines, "MDRIVER".as_bytes());
    push_text(&mut lines, stage);
    push_number(&mut lines, requester as u64);
    assert(texts(lines@) =~= device_lines(ascii("MDRIVER"@), stage@, requester));
    screen.report(FAILURE_COLOR, &lines);
}

/// A window of a device and what is wrong with it.
pub open spec fn bar_line(index: u8, reason: u8) -> Seq<u8> {
    ascii("BAR "@) + hex2(index as int) + ascii(" REASON "@) + hex2(reason as int)
}

fn push_bar(lines: &mut Vec<Vec<u8>>, index: u8, reason: u8)
    ensures
        texts(final(lines)@) == texts(old(lines)@).push(bar_line(index, reason)),
        final(lines)@.len() == old(lines)@.len() + 1,
{
    let mut text: Vec<u8> = line("BAR ");
    push_hex2(&mut text, index as u64);
    let mut middle: Vec<u8> = line(" REASON ");
    text.append(&mut middle);
    push_hex2(&mut text, reason as u64);
    assert(text@ =~= bar_line(index, reason));
    push_text(lines, text.as_slice());
}

/// Two halves of a register.
pub open spec fn pair_line(name: Seq<char>, high: u32, low: u32) -> Seq<u8> {
    ascii(name) + hex8(high as int) + ascii(" "@) + hex8(low as int)
}

/// The lines of a report on a device whose window cannot be used.
pub open spec fn bar_lines(requester: u16, failure: BarProbeFailure) -> Seq<Seq<u8>> {
    seq![
        ascii("MDRIVER"@),
        ascii("BAR VALUE ERROR"@),
        hex4(requester as int),
        bar_line(failure.index, failure.reason),
        pair_line("VALUE "@, failure.high, failure.low),
        pair_line("MASK  "@, failure.mask_high, failure.mask_low),
    ]
}

fn push_pair(lines: &mut Vec<Vec<u8>>, name: &str, high: u32, low: u32)
    ensures
        texts(final(lines)@) == texts(old(lines)@).push(pair_line(name@, high, low)),
        final(lines)@.len() == old(lines)@.len() + 1,
{
    let mut text: Vec<u8> = line(name);
    push_hex8(&mut text, high as u64);
    let mut space: Vec<u8> = line(" ");
    text.append(&mut space);
    push_hex8(&mut text, low as u64);
    assert(text@ =~= pair_line(name@, high, low));
    push_text(lines, text.as_slice());
}

/// Shows the registers of a device whose window cannot be used.
pub fn mdriver_bar_value_failure(screen: &mut Screen, requester: u16, failure: BarProbeFailure)
    requires
        old(screen).wf(),
    ensures
        stays_off(old(screen)@, final(screen)@),
        final(screen).wf(),
        shows_failure(old(screen)@, final(screen)@, bar_lines(requester, failure)),
{
    let mut lines = no_lines();
    push_text(&mut lines, "MDRIVER".as_bytes());
    push_text(&mut lines, "BAR VALUE ERROR".as_bytes());
    push_number(&mut lines, requester as u64);
    push_bar(&mut lines, failure.index, failure.reason);
    push_pair(&mut lines, "VALUE ", failure.high, failure.low);
    push_pair(&mut lines, "MASK  ", failure.mask_high, failure.mask_low);
    assert(texts(lines@) =~= bar_lines(requester, failure));
    screen.report(FAILURE_COLOR, &lines);
}

/// Shows why a device could not be connected to its Domain.
pub fn mdriver_dma_map_failure(screen: &mut Screen, requester: u16, detail: &[u8])
    requires
        old(screen).wf(),
    ensures
        stays_off(old(screen)@, final(screen)@),
        final(screen).wf(),
        shows_failure(
            old(screen)@,
            final(screen)@,
            device_lines(ascii("MDRIVER"@), ascii("DMA MAP ERROR"@), requester).push(detail@),
        ),
{
    let mut lines = no_lines();
    push_text(&mut lines, "MDRIVER".as_bytes());
    push_text(&mut lines, "DMA MAP ERROR".as_bytes());
    push_number(&mut lines, requester as u64);
    push_text(&mut lines, detail);
    assert(texts(lines@) =~= device_lines(
        ascii("MDRIVER"@),
        ascii("DMA MAP ERROR"@),
        requester,
    ).push(detail@));
    screen.report(FAILURE_COLOR, &lines);
}

/// Shows the number of a failure.
pub fn failure(screen: &mut Screen, code: u8)
    requires
        old(screen).wf(),
    ensures
        stays_off(old(screen)@, final(screen)@),
        final(screen).wf(),
        shows_failure(
            old(screen)@,
            final(screen)@,
            seq![
            ascii("MBOOT"@),
            ascii("ERROR"@),
            seq![(0x30 + code / 10 % 10) as u8, (0x30 + code % 10) as u8],
        ],
        ),
{
    let mut lines = no_lines();
    push_text(&mut lines, "MBOOT".as_bytes());
    push_text(&mut lines, "ERROR".as_bytes());
    let mut digits: Vec<u8> = Vec::new();
    digits.push(0x30 + code / 10 % 10);
    digits.push(0x30 + code % 10);
    assert(digits@ =~= seq![(0x30 + code / 10 % 10) as u8, (0x30 + code % 10) as u8]);
    push_text(&mut lines, digits.as_slice());
    assert(texts(lines@) =~= seq![
            ascii("MBOOT"@),
            ascii("ERROR"@),
            seq![(0x30 + code / 10 % 10) as u8, (0x30 + code % 10) as u8],
        ]);
    screen.report(FAILURE_COLOR, &lines);
}

/// Shows a device whose DMA could not be stopped.
pub fn pci_dma_failure(screen: &mut Screen, requester: u16)
    requires
        old(screen).wf(),
    ensures
        stays_off(old(screen)@, final(screen)@),
        final(screen).wf(),
        shows_failure(
            old(screen)@,
            final(screen)@,
            device_lines(ascii("MBOOT"@), ascii("PCI DMA"@), requester),
        ),
{
    let mut lines = no_lines();
    push_text(&mut lines, "MBOOT".as_bytes());
    push_text(&mut lines, "PCI DMA".as_bytes());
    push_number(&mut lines, requester as u64);
    assert(texts(lines@) =~= device_lines(ascii("MBOOT"@), ascii("PCI DMA"@), requester));
    screen.report(FAILURE_COLOR, &lines);
}

/// A device and what it is.
pub open spec fn identity(requester: u16, vendor: u16, device: u16) -> Seq<u8> {
    hex4(requester as int) + ascii(" "@) + hex4(vendor as int) + ascii(" "@) + hex4(device as int)
}

fn push_identity(lines: &mut Vec<Vec<u8>>, requester: u16, vendor: u16, device: u16)
    ensures
        texts(final(lines)@) == texts(old(lines)@).push(identity(requester, vendor, device)),
        final(lines)@.len() == old(lines)@.len() + 1,
{
    let mut text: Vec<u8> = Vec::new();
    push_hex4(&mut text, requester as u64);
    let mut first: Vec<u8> = line(" ");
    text.append(&mut first);
    push_hex4(&mut text, vendor as u64);
    let mut second: Vec<u8> = line(" ");
    text.append(&mut second);
    push_hex4(&mut text, device as u64);
    assert(text@ =~= identity(requester, vendor, device));
    push_text(lines, text.as_slice());
}

/// Shows two devices of which only one could be meant.
pub fn nvme_candidates(screen: &mut Screen, first: (u16, u16, u16), second: (u16, u16, u16))
    requires
        old(screen).wf(),
    ensures
        stays_off(old(screen)@, final(screen)@),
        final(screen).wf(),
        shows_failure(
            old(screen)@,
            final(screen)@,
            seq![
            ascii("NVME"@),
            identity(first.0, first.1, first.2),
            identity(second.0, second.1, second.2),
        ],
        ),
{
    let mut lines = no_lines();
    push_text(&mut lines, "NVME".as_bytes());
    push_identity(&mut lines, first.0, first.1, first.2);
    push_identity(&mut lines, second.0, second.1, second.2);
    assert(texts(lines@) =~= seq![
            ascii("NVME"@),
            identity(first.0, first.1, first.2),
            identity(second.0, second.1, second.2),
        ]);
    screen.report(FAILURE_COLOR, &lines);
}

/// The lines of a report on the storage devices that were found.
pub open spec fn storage_lines(
    first: Option<(u16, u16, u16, u8)>,
    second: Option<(u16, u16, u16, u8)>,
) -> Seq<Seq<u8>> {
    match first {
        None => seq![ascii("STORAGE"@), ascii("NONE"@)],
        Some(found) => seq![
            ascii("STORAGE"@),
            identity(found.0, found.1, found.2),
            match second {
                Some(other) => identity(other.0, other.1, other.2),
                None => ascii("CLASS 01"@) + hex2(found.3 as int),
            },
        ],
    }
}

/// Shows the storage devices that were found in place of the one that is wanted.
pub fn storage_candidates(
    screen: &mut Screen,
    first: Option<(u16, u16, u16, u8)>,
    second: Option<(u16, u16, u16, u8)>,
)
    requires
        old(screen).wf(),
    ensures
        stays_off(old(screen)@, final(screen)@),
        final(screen).wf(),
        shows_failure(old(screen)@, final(screen)@, storage_lines(first, second)),
{
    let mut lines = no_lines();
    push_text(&mut lines, "STORAGE".as_bytes());
    match first {
        None => {
            push_text(&mut lines, "NONE".as_bytes());
        },
        Some(found) => {
            push_identity(&mut lines, found.0, found.1, found.2);
            match second {
                Some(other) => {
                    push_identity(&mut lines, other.0, other.1, other.2);
                },
                None => {
                    let mut text: Vec<u8> = line("CLASS 01");
                    push_hex2(&mut text, found.3 as u64);
                    push_text(&mut lines, text.as_slice());
                },
            }
        },
    }
    assert(texts(lines@) =~= storage_lines(first, second));
    screen.report(FAILURE_COLOR, &lines);
}

/// Shows the field of a VMCS that could not be written.
pub fn vmcs_failure(screen: &mut Screen, field: u64)
    requires
        old(screen).wf(),
    ensures
        stays_off(old(screen)@, final(screen)@),
        final(screen).wf(),
        shows_failure(
            old(screen)@,
            final(screen)@,
            seq![ascii("MBOOT"@), ascii("VMCS"@), hex4(field as int)],
        ),
{
    let mut lines = no_lines();
    push_text(&mut lines, "MBOOT".as_bytes());
    push_text(&mut lines, "VMCS".as_bytes());
    push_number(&mut lines, field);
    assert(texts(lines@) =~= seq![ascii("MBOOT"@), ascii("VMCS"@), hex4(field as int)]);
    screen.report(FAILURE_COLOR, &lines);
}

/// Shows why a guest could not be entered.
pub fn vm_entry_failure(screen: &mut Screen, instruction_error: u64)
    requires
        old(screen).wf(),
    ensures
        stays_off(old(screen)@, final(screen)@),
        final(screen).wf(),
        shows_failure(
            old(screen)@,
            final(screen)@,
            seq![ascii("MBOOT"@), ascii("VMX"@), hex4(instruction_error as int)],
        ),
{
    let mut lines = no_lines();
    push_text(&mut lines, "MBOOT".as_bytes());
    push_text(&mut lines, "VMX".as_bytes());
    push_number(&mut lines, instruction_error);
    assert(texts(lines@) =~= seq![ascii("MBOOT"@), ascii("VMX"@), hex4(instruction_error as int)]);
    screen.report(FAILURE_COLOR, &lines);
}

/// What can be drawn on a screen.
pub enum Drawing {
    /// A report of progress or of a failure.
    Report { color: u32, lines: Seq<Seq<u8>> },
    /// An empty console.
    Console,
    /// A character on the console.
    Character { cell: Cell, font: Seq<[u8; 16]> },
    /// A page of text.
    Page { message: Seq<u8>, font: Seq<[u8; 16]> },
}

/// The screen after a drawing.
pub open spec fn after_drawing(s: ScreenView, drawing: Drawing) -> ScreenView {
    match drawing {
        Drawing::Report { color, lines } => reported(s, color, lines, lines.len() as int),
        Drawing::Console => filled(s, 0),
        Drawing::Character { cell, font } => celled(s, cell, font),
        Drawing::Page { message, font } => paged(s, message, font).1,
    }
}

/// The screen after the first `n` drawings.
pub open spec fn after_drawings(s: ScreenView, drawings: Seq<Drawing>, n: int) -> ScreenView
    decreases n,
{
    if n <= 0 {
        s
    } else {
        after_drawing(after_drawings(s, drawings, n - 1), drawings[n - 1])
    }
}

proof fn lemma_no_report(color: u32, lines: Seq<Seq<u8>>, n: int)
    ensures
        reported(no_screen(), color, lines, n) == no_screen(),
    decreases n,
{
    if n > 0 {
        lemma_no_report(color, lines, n - 1);
        assert(lined(no_screen(), lines[n - 1], n - 1) =~= no_screen());
    } else {
        assert(filled(no_screen(), color) =~= no_screen());
    }
}

/// Once the screen has been handed off, nothing draws on it, whatever is drawn and
/// however often: there is no pixel left to write, no page is shown, and no Domain is
/// told of a framebuffer.
pub proof fn law_nothing_is_drawn_after_handoff(
    drawings: Seq<Drawing>,
    n: int,
    message: Seq<u8>,
    font: Seq<[u8; 16]>,
)
    ensures
        ({
            let s = after_drawings(no_screen(), drawings, n);
            &&& s == no_screen()
            &&& s.pixels.len() == 0
            &&& !paged(s, message, font).0
            &&& description(s) is None
        }),
    decreases n,
{
    if n > 0 {
        law_nothing_is_drawn_after_handoff(drawings, n - 1, message, font);
        match drawings[n - 1] {
            Drawing::Report { color, lines } => {
                lemma_no_report(color, lines, lines.len() as int);
            },
            Drawing::Console => {
                assert(filled(no_screen(), 0) =~= no_screen());
            },
            Drawing::Character { cell, font } => {
                assert(celled(no_screen(), cell, font) =~= no_screen());
            },
            Drawing::Page { .. } => {},
        }
    }
}

} // verus!
