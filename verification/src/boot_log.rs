//! Bounded, printable log tail for pre-scanout boot diagnostics.

use vstd::prelude::*;
use vstd::slice::{slice_subrange, slice_to_vec};
use vstd::string::*;
use vstd::utf8::*;

use crate::bytes::same_bytes;

verus! {

pub const COLUMNS: usize = 96;

pub const LINES: usize = 24;

pub const REPORT_SIZE: usize = 4096;

/// There is no room left in a report.
#[derive(Clone, Copy, Debug, PartialEq, Eq, Structural)]
pub struct ReportFull;

/// A report of limited size.
pub struct ProbeReport {
    content: String,
    length: usize,
}

impl View for ProbeReport {
    type V = Seq<char>;

    closed spec fn view(&self) -> Seq<char> {
        self.content@
    }
}

/// Encoding text piece by piece gives the same bytes.
proof fn lemma_encode_concat(a: Seq<char>, b: Seq<char>)
    ensures
        encode_utf8(a + b) == encode_utf8(a) + encode_utf8(b),
    decreases a.len(),
{
    if a.len() == 0 {
        assert(a + b =~= b);
        assert(encode_utf8(a) + encode_utf8(b) =~= encode_utf8(b));
    } else {
        assert((a + b).drop_first() =~= a.drop_first() + b);
        lemma_encode_concat(a.drop_first(), b);
        assert(encode_utf8(a + b) =~= encode_utf8(a) + encode_utf8(b));
    }
}

impl ProbeReport {
    /// The text fits.
    pub closed spec fn wf(&self) -> bool {
        self.length == encode_utf8(self.content@).len() <= REPORT_SIZE
    }

    pub fn new() -> (r: Self)
        ensures
            r.wf(),
            r@ == Seq::<char>::empty(),
    {
        ProbeReport { content: String::new(), length: 0 }
    }

    pub fn text(&self) -> (r: &str)
        ensures
            r@ == self@,
    {
        self.content.as_str()
    }

    /// Adds text, all of it or none.
    pub fn write_str(&mut self, text: &str) -> (r: Result<(), ReportFull>)
        requires
            old(self).wf(),
        ensures
            final(self).wf(),
            r is Ok <==> encode_utf8(old(self)@ + text@).len() <= REPORT_SIZE,
            final(self)@ == (if r is Ok {
                old(self)@ + text@
            } else {
                old(self)@
            }),
    {
        let more: usize = text.as_bytes().len();
        proof {
            lemma_encode_concat(self.content@, text@);
        }
        if more > REPORT_SIZE - self.length {
            return Err(ReportFull);
        }
        self.content.append(text);
        self.length += more;
        Ok(())
    }
}

/// The lines with newlines between them.
pub open spec fn joined(rows: Seq<Seq<u8>>) -> Seq<u8>
    decreases rows.len(),
{
    if rows.len() == 0 {
        Seq::empty()
    } else if rows.len() == 1 {
        rows[0]
    } else {
        rows[0] + seq![10u8] + joined(rows.drop_first())
    }
}

/// A byte as it is shown.
pub open spec fn printable(byte: u8) -> u8 {
    if 0x20 <= byte <= 0x7e {
        byte
    } else if byte == 9 {
        0x20
    } else {
        0x3f
    }
}

/// A line that fits and can be shown.
pub open spec fn is_row(row: Seq<u8>) -> bool {
    row.len() <= COLUMNS && forall|i: int|
        0 <= i < row.len() ==> 0x20 <= #[trigger] row[i] <= 0x7e
}

/// Lines that fit and can be shown.
pub open spec fn is_log(rows: Seq<Seq<u8>>) -> bool {
    1 <= rows.len() <= LINES && forall|i: int| 0 <= i < rows.len() ==> is_row(#[trigger] rows[i])
}

/// A new last line; the first one leaves when there are too many.
pub open spec fn with_line(rows: Seq<Seq<u8>>) -> Seq<Seq<u8>> {
    (if rows.len() >= LINES {
        rows.drop_first()
    } else {
        rows
    }).push(Seq::empty())
}

/// One more byte.
pub open spec fn with_byte(rows: Seq<Seq<u8>>, byte: u8) -> Seq<Seq<u8>> {
    if byte == 13 {
        rows
    } else if byte == 10 {
        with_line(rows)
    } else {
        let room = if rows.last().len() >= COLUMNS {
            with_line(rows)
        } else {
            rows
        };
        room.update(room.len() - 1, room.last().push(printable(byte)))
    }
}

/// The first `n` of some bytes added.
pub open spec fn with_bytes(rows: Seq<Seq<u8>>, bytes: Seq<u8>, n: int) -> Seq<Seq<u8>>
    decreases n,
{
    if n <= 0 {
        rows
    } else {
        with_byte(with_bytes(rows, bytes, n - 1), bytes[n - 1])
    }
}

/// What the log shows in each cell of the screen.
pub open spec fn screen(rows: Seq<Seq<u8>>) -> Seq<u8> {
    Seq::new(
        COLUMNS as nat * LINES as nat,
        |i: int|
            {
                let y = i / (COLUMNS as int);
                let x = i % (COLUMNS as int);
                if y < rows.len() && x < rows[y].len() {
                    rows[y][x]
                } else {
                    0x20
                }
            },
    )
}

/// A cell of the screen and what it shows.
#[derive(Clone, Copy, Debug, PartialEq, Eq, Structural)]
pub struct Cell {
    pub x: usize,
    pub y: usize,
    pub byte: u8,
}

/// The cells among the first `n` that change.
pub open spec fn changed(before: Seq<u8>, after: Seq<u8>, n: int) -> Seq<Cell>
    decreases n,
{
    if n <= 0 {
        Seq::empty()
    } else {
        let cells = changed(before, after, n - 1);
        if before[n - 1] == after[n - 1] {
            cells
        } else {
            cells.push(
                Cell {
                    x: ((n - 1) % (COLUMNS as int)) as usize,
                    y: ((n - 1) / (COLUMNS as int)) as usize,
                    byte: after[n - 1],
                },
            )
        }
    }
}

/// What is to be drawn: the cells, after the screen was cleared if it must be.
#[derive(Debug, PartialEq, Eq)]
pub struct Redraw {
    pub begin: bool,
    pub cells: Vec<Cell>,
}

/// The needle is in the text at an offset.
pub open spec fn occurs_at(text: Seq<u8>, needle: Seq<u8>, at: int) -> bool {
    0 <= at && at + needle.len() <= text.len() && text.subrange(at, at + needle.len()) == needle
}

pub open spec fn occurs(text: Seq<u8>, needle: Seq<u8>) -> bool {
    exists|at: int| #[trigger] occurs_at(text, needle, at)
}

/// `Kernel panic`.
pub const KERNEL_PANIC: [u8; 12] = [
    0x4b, 0x65, 0x72, 0x6e, 0x65, 0x6c, 0x20, 0x70, 0x61, 0x6e, 0x69, 0x63,
];

/// `Oops:`.
pub const OOPS: [u8; 5] = [0x4f, 0x6f, 0x70, 0x73, 0x3a];

/// `BUG:`.
pub const BUG: [u8; 4] = [0x42, 0x55, 0x47, 0x3a];

/// `claim failed:`.
pub const CLAIM_FAILED: [u8; 13] = [
    0x63, 0x6c, 0x61, 0x69, 0x6d, 0x20, 0x66, 0x61, 0x69, 0x6c, 0x65, 0x64, 0x3a,
];

/// `Initramfs unpacking failed:`.
pub const UNPACKING_FAILED: [u8; 27] = [
    0x49, 0x6e, 0x69, 0x74, 0x72, 0x61, 0x6d, 0x66, 0x73, 0x20, 0x75, 0x6e, 0x70, 0x61, 0x63, 0x6b,
    0x69, 0x6e, 0x67, 0x20, 0x66, 0x61, 0x69, 0x6c, 0x65, 0x64, 0x3a,
];

/// `CPU ISA level is lower than required`.
pub const ISA_LEVEL: [u8; 36] = [
    0x43, 0x50, 0x55, 0x20, 0x49, 0x53, 0x41, 0x20, 0x6c, 0x65, 0x76, 0x65, 0x6c, 0x20, 0x69, 0x73,
    0x20, 0x6c, 0x6f, 0x77, 0x65, 0x72, 0x20, 0x74, 0x68, 0x61, 0x6e, 0x20, 0x72, 0x65, 0x71, 0x75,
    0x69, 0x72, 0x65, 0x64,
];

/// `error while loading shared libraries:`.
pub const SHARED_LIBRARIES: [u8; 37] = [
    0x65, 0x72, 0x72, 0x6f, 0x72, 0x20, 0x77, 0x68, 0x69, 0x6c, 0x65, 0x20, 0x6c, 0x6f, 0x61, 0x64,
    0x69, 0x6e, 0x67, 0x20, 0x73, 0x68, 0x61, 0x72, 0x65, 0x64, 0x20, 0x6c, 0x69, 0x62, 0x72, 0x61,
    0x72, 0x69, 0x65, 0x73, 0x3a,
];

/// The text reports a failure.
pub open spec fn reports_failure(text: Seq<u8>) -> bool {
    ||| occurs(text, KERNEL_PANIC@)
    ||| occurs(text, OOPS@)
    ||| occurs(text, BUG@)
    ||| occurs(text, CLAIM_FAILED@)
    ||| occurs(text, UNPACKING_FAILED@)
    ||| occurs(text, ISA_LEVEL@)
    ||| occurs(text, SHARED_LIBRARIES@)
}

/// The lines that have ended.
pub open spec fn complete(rows: Seq<Seq<u8>>) -> Seq<u8> {
    joined(rows.update(rows.len() - 1, Seq::empty()))
}

pub struct BootLog {
    bytes: Vec<u8>,
    column: usize,
    lines: usize,
    failure_shown: bool,
    console_started: bool,
    console_finished: bool,
    rendered: Vec<u8>,
    rows: Ghost<Seq<Seq<u8>>>,
}

#[verifier::ext_equal]
pub struct BootLogView {
    pub rows: Seq<Seq<u8>>,
    pub failure_shown: bool,
    pub console_started: bool,
    pub console_finished: bool,
    pub rendered: Seq<u8>,
}

impl View for BootLog {
    type V = BootLogView;

    closed spec fn view(&self) -> BootLogView {
        BootLogView {
            rows: self.rows@,
            failure_shown: self.failure_shown,
            console_started: self.console_started,
            console_finished: self.console_finished,
            rendered: self.rendered@,
        }
    }
}

/// The last line stands at the end of the text.
proof fn lemma_last_row(rows: Seq<Seq<u8>>)
    requires
        rows.len() >= 1,
    ensures
        joined(rows) == joined(rows.update(rows.len() - 1, Seq::empty())) + rows.last(),
    decreases rows.len(),
{
    let ended = rows.update(rows.len() - 1, Seq::empty());
    if rows.len() == 1 {
        assert(joined(ended) + rows.last() =~= rows[0]);
    } else {
        lemma_last_row(rows.drop_first());
        assert(rows.drop_first().update(rows.len() - 2, Seq::empty()) =~= ended.drop_first());
        assert(rows.drop_first().last() == rows.last());
        assert(joined(rows) =~= joined(ended) + rows.last());
    }
}

/// A byte at the end of the last line is a byte at the end of the text.
proof fn lemma_push_byte(rows: Seq<Seq<u8>>, byte: u8)
    requires
        rows.len() >= 1,
    ensures
        joined(rows.update(rows.len() - 1, rows.last().push(byte))) == joined(rows).push(byte),
{
    let after = rows.update(rows.len() - 1, rows.last().push(byte));
    lemma_last_row(rows);
    lemma_last_row(after);
    assert(after.update(rows.len() - 1, Seq::empty()) =~= rows.update(
        rows.len() - 1,
        Seq::empty(),
    ));
    assert(joined(after) =~= joined(rows).push(byte));
}

/// A new last line is a newline at the end of the text.
proof fn lemma_push_row(rows: Seq<Seq<u8>>)
    requires
        rows.len() >= 1,
    ensures
        joined(rows.push(Seq::empty())) == joined(rows).push(10),
    decreases rows.len(),
{
    let after = rows.push(Seq::empty());
    if rows.len() == 1 {
        assert(after.drop_first() =~= seq![Seq::<u8>::empty()]);
        assert(joined(after.drop_first()) == Seq::<u8>::empty());
        assert(joined(after) =~= joined(rows).push(10));
    } else {
        lemma_push_row(rows.drop_first());
        assert(after.drop_first() =~= rows.drop_first().push(Seq::empty()));
        assert(joined(after) =~= joined(rows).push(10));
    }
}

/// The text is no longer than its lines allow.
proof fn lemma_joined_length(rows: Seq<Seq<u8>>)
    requires
        forall|i: int| 0 <= i < rows.len() ==> (#[trigger] rows[i]).len() <= COLUMNS,
    ensures
        joined(rows).len() <= (COLUMNS + 1) * rows.len(),
    decreases rows.len(),
{
    if rows.len() > 1 {
        assert forall|i: int| 0 <= i < rows.drop_first().len() implies (
        #[trigger] rows.drop_first()[i]).len() <= COLUMNS by {
            assert(rows.drop_first()[i] == rows[i + 1]);
        }
        lemma_joined_length(rows.drop_first());
    } else if rows.len() == 1 {
        assert(rows[0].len() <= COLUMNS);
    }
}

/// The log keeps its shape with one more byte.
proof fn lemma_with_byte(rows: Seq<Seq<u8>>, byte: u8)
    requires
        is_log(rows),
    ensures
        is_log(with_line(rows)),
        is_log(with_byte(rows, byte)),
{
    let line = with_line(rows);
    assert forall|i: int| 0 <= i < line.len() implies is_row(#[trigger] line[i]) by {
        if i < line.len() - 1 {
            if rows.len() >= LINES {
                assert(line[i] == rows[i + 1]);
            } else {
                assert(line[i] == rows[i]);
            }
        }
    }
    let room = if rows.last().len() >= COLUMNS {
        line
    } else {
        rows
    };
    let after = room.update(room.len() - 1, room.last().push(printable(byte)));
    assert(is_row(room[room.len() - 1]));
    assert(is_row(room.last().push(printable(byte))));
    assert forall|i: int| 0 <= i < after.len() implies is_row(#[trigger] after[i]) by {
        if i < after.len() - 1 {
            assert(after[i] == room[i]);
        }
    }
}

/// The first newline of a text ends its first line.
proof fn lemma_first_newline(rows: Seq<Seq<u8>>)
    requires
        is_log(rows),
        rows.len() >= 2,
    ensures
        joined(rows).len() > rows[0].len(),
        joined(rows)[rows[0].len() as int] == 10,
        forall|i: int| 0 <= i < rows[0].len() ==> #[trigger] joined(rows)[i] != 10,
        joined(rows).subrange(rows[0].len() as int + 1, joined(rows).len() as int) == joined(
            rows.drop_first(),
        ),
{
    assert(is_row(rows[0]));
    assert(joined(rows).subrange(rows[0].len() as int + 1, joined(rows).len() as int) =~= joined(
        rows.drop_first(),
    ));
}

impl BootLog {
    /// The text holds the lines, and they fit.
    pub closed spec fn wf(&self) -> bool {
        &&& is_log(self.rows@)
        &&& self.bytes@ == joined(self.rows@)
        &&& self.column == self.rows@.last().len()
        &&& self.lines == self.rows@.len()
        &&& self.rendered@.len() == COLUMNS * LINES
    }

    pub fn new() -> (r: Self)
        ensures
            r.wf(),
            r@.rows == seq![Seq::<u8>::empty()],
            !r@.failure_shown,
            !r@.console_started,
            !r@.console_finished,
            r@.rendered == screen(seq![Seq::<u8>::empty()]),
    {
        let mut rendered: Vec<u8> = Vec::new();
        while rendered.len() < COLUMNS * LINES
            invariant
                rendered@.len() <= COLUMNS * LINES,
                forall|i: int| 0 <= i < rendered@.len() ==> #[trigger] rendered@[i] == 0x20,
            decreases COLUMNS * LINES - rendered.len(),
        {
            rendered.push(0x20);
        }
        let ghost rows = seq![Seq::<u8>::empty()];
        let log = BootLog {
            bytes: Vec::new(),
            column: 0,
            lines: 1,
            failure_shown: false,
            console_started: false,
            console_finished: false,
            rendered,
            rows: Ghost(rows),
        };
        assert(log.rendered@ =~= screen(rows));
        assert(is_row(rows[0]));
        log
    }

    fn newline(&mut self)
        requires
            old(self).wf(),
        ensures
            final(self).wf(),
            final(self)@ == (BootLogView { rows: with_line(old(self)@.rows), ..old(self)@ }),
            final(self).column == 0,
    {
        proof {
            lemma_with_byte(self.rows@, 10);
        }
        if self.lines >= LINES {
            proof {
                lemma_first_newline(self.rows@);
            }
            let mut end: usize = 0;
            while self.bytes[end] != 10
                invariant
                    *self == *old(self),
                    self.wf(),
                    self.rows@.len() >= 2,
                    self.bytes@ == joined(self.rows@),
                    joined(self.rows@).len() > self.rows@[0].len(),
                    joined(self.rows@)[self.rows@[0].len() as int] == 10,
                    end <= self.rows@[0].len(),
                decreases self.rows@[0].len() - end,
            {
                end += 1;
            }
            assert(end == self.rows@[0].len());
            self.bytes = slice_to_vec(
                slice_subrange(self.bytes.as_slice(), end + 1, self.bytes.len()),
            );
            proof {
                let kept = old(self).rows@.drop_first();
                assert(self.bytes@ == joined(kept));
                lemma_push_row(kept);
            }
        } else {
            proof {
                lemma_push_row(self.rows@);
            }
            self.lines += 1;
        }
        self.bytes.push(10);
        self.column = 0;
        self.rows = Ghost(with_line(self.rows@));
    }

    /// Adds bytes to the log. What cannot be shown is replaced.
    pub fn append(&mut self, bytes: &[u8])
        requires
            old(self).wf(),
        ensures
            final(self).wf(),
            final(self)@ == (BootLogView {
                rows: with_bytes(old(self)@.rows, bytes@, bytes@.len() as int),
                ..old(self)@
            }),
    {
        let mut i: usize = 0;
        while i < bytes.len()
            invariant
                i <= bytes@.len(),
                self.wf(),
                self@ == (BootLogView {
                    rows: with_bytes(old(self)@.rows, bytes@, i as int),
                    ..old(self)@
                }),
            decreases bytes@.len() - i,
        {
            let byte: u8 = bytes[i];
            proof {
                lemma_with_byte(self.rows@, byte);
            }
            if byte == 10 {
                self.newline();
            } else if byte != 13 {
                if self.column >= COLUMNS {
                    self.newline();
                }
                let shown: u8 = if byte >= 0x20 && byte <= 0x7e {
                    byte
                } else if byte == 9 {
                    0x20
                } else {
                    0x3f
                };
                proof {
                    lemma_push_byte(self.rows@, shown);
                }
                self.bytes.push(shown);
                self.column += 1;
                let ghost room = self.rows@;
                self.rows = Ghost(room.update(room.len() - 1, room.last().push(shown)));
            }
            i += 1;
        }
    }

    pub fn text(&self) -> (r: &[u8])
        requires
            self.wf(),
        ensures
            r@ == joined(self@.rows),
    {
        self.bytes.as_slice()
    }

    pub fn console_started(&self) -> (r: bool)
        ensures
            r == self@.console_started,
    {
        self.console_started
    }

    /// Stops drawing for good.
    pub fn finish_console(&mut self)
        requires
            old(self).wf(),
        ensures
            final(self).wf(),
            final(self)@ == (BootLogView { console_finished: true, ..old(self)@ }),
    {
        self.console_finished = true;
    }

    pub fn console_finished(&self) -> (r: bool)
        ensures
            r == self@.console_finished,
    {
        self.console_finished
    }

    /// The cells that have to be drawn to show the log, none once the console
    /// has finished. The screen is cleared before the first of them.
    pub fn render_console(&mut self) -> (r: Redraw)
        requires
            old(self).wf(),
        ensures
            final(self).wf(),
            if old(self)@.console_finished {
                !r.begin && r.cells@ == Seq::<Cell>::empty() && final(self)@ == old(self)@
            } else {
                &&& r.begin == !old(self)@.console_started
                &&& r.cells@ == changed(
                    old(self)@.rendered,
                    screen(old(self)@.rows),
                    COLUMNS * LINES,
                )
                &&& final(self)@ == (BootLogView {
                    console_started: true,
                    rendered: screen(old(self)@.rows),
                    ..old(self)@
                })
            },
    {
        let mut cells: Vec<Cell> = Vec::new();
        if self.console_finished {
            return Redraw { begin: false, cells };
        }
        let begin = !self.console_started;
        self.console_started = true;
        let next = self.draw();
        let mut i: usize = 0;
        while i < next.len()
            invariant
                self.rendered@.len() == COLUMNS * LINES,
                next@.len() == COLUMNS * LINES,
                i <= next@.len(),
                cells@ == changed(self.rendered@, next@, i as int),
            decreases next@.len() - i,
        {
            if self.rendered[i] != next[i] {
                cells.push(Cell { x: i % COLUMNS, y: i / COLUMNS, byte: next[i] });
            }
            i += 1;
        }
        self.rendered = next;
        Redraw { begin, cells }
    }

    /// What the log shows in each cell of the screen.
    fn draw(&self) -> (r: Vec<u8>)
        requires
            self.wf(),
        ensures
            r@ == screen(self.rows@),
    {
        let mut next: Vec<u8> = Vec::new();
        let mut at: usize = 0;
        let mut y: usize = 0;
        let ghost rows = self.rows@;
        let ghost wanted = screen(rows);
        assert(rows.skip(0) =~= rows);
        assert(self.bytes@.skip(0) =~= self.bytes@);
        while y < LINES
            invariant
                self.wf(),
                rows == self.rows@,
                wanted == screen(rows),
                y <= LINES,
                next@.len() == COLUMNS * y,
                forall|i: int| 0 <= i < next@.len() ==> #[trigger] next@[i] == wanted[i],
                at <= self.bytes@.len(),
                y < rows.len() ==> self.bytes@.skip(at as int) == joined(rows.skip(y as int)),
                y >= rows.len() ==> at == self.bytes@.len(),
            decreases LINES - y,
        {
            let mut x: usize = 0;
            let ghost row = if y < rows.len() {
                rows[y as int]
            } else {
                Seq::empty()
            };
            let ghost start = at as int;
            proof {
                if y < rows.len() {
                    assert(is_row(rows[y as int]));
                    lemma_row_text(self.bytes@, rows, at as int, y as int);
                }
            }
            while x < COLUMNS && at < self.bytes.len() && self.bytes[at] != 10
                invariant
                    y < LINES,
                    x <= COLUMNS,
                    next@.len() == COLUMNS * y + x,
                    forall|i: int| 0 <= i < next@.len() ==> #[trigger] next@[i] == wanted[i],
                    wanted == screen(rows),
                    row.len() <= COLUMNS,
                    at == start + x,
                    at <= self.bytes@.len(),
                    x <= row.len(),
                    y < rows.len() ==> row == rows[y as int],
                    y >= rows.len() ==> start == self.bytes@.len(),
                    y < rows.len() ==> start + row.len() <= self.bytes@.len(),
                    forall|i: int|
                        0 <= i < row.len() ==> #[trigger] self.bytes@[start + i] == row[i]
                            && row[i] != 10,
                    y < rows.len() && start + row.len() < self.bytes@.len() ==> self.bytes@[start
                        + row.len()] == 10,
                decreases COLUMNS - x,
            {
                let ghost i = COLUMNS * y + x;
                assert(x < row.len()) by {
                    if x == row.len() {
                        assert(self.bytes@[start + row.len()] == 10);
                    }
                }
                assert(self.bytes@[start + x] == row[x as int]);
                assert(i / (COLUMNS as int) == y && i % (COLUMNS as int) == x) by {
                    lemma_cell(x as int, y as int);
                }
                next.push(self.bytes[at]);
                at += 1;
                x += 1;
            }
            assert(x == row.len()) by {
                if x < row.len() {
                    assert(self.bytes@[start + x] == row[x as int]);
                }
            }
            while x < COLUMNS
                invariant
                    y < LINES,
                    x <= COLUMNS,
                    x >= row.len(),
                    y < rows.len() ==> row == rows[y as int],
                    next@.len() == COLUMNS * y + x,
                    forall|i: int| 0 <= i < next@.len() ==> #[trigger] next@[i] == wanted[i],
                    wanted == screen(rows),
                decreases COLUMNS - x,
            {
                let ghost i = COLUMNS * y + x;
                assert(i / (COLUMNS as int) == y && i % (COLUMNS as int) == x) by {
                    lemma_cell(x as int, y as int);
                }
                next.push(0x20);
                x += 1;
            }
            if at < self.bytes.len() {
                at += 1;
            }
            y += 1;
        }
        assert(next@ =~= wanted);
        next
    }

    pub fn failure_shown(&self) -> (r: bool)
        ensures
            r == self@.failure_shown,
    {
        self.failure_shown
    }

    pub fn mark_failure_shown(&mut self)
        requires
            old(self).wf(),
        ensures
            final(self).wf(),
            final(self)@ == (BootLogView { failure_shown: true, ..old(self)@ }),
    {
        self.failure_shown = true;
    }

    /// Show the first actionable failure once; ordinary printk must not redraw.
    pub fn take_failure(&mut self) -> (r: bool)
        requires
            old(self).wf(),
        ensures
            final(self).wf(),
            r == (!old(self)@.failure_shown && reports_failure(complete(old(self)@.rows))),
            final(self)@ == (BootLogView {
                failure_shown: old(self)@.failure_shown || r,
                ..old(self)@
            }),
    {
        if self.failure_shown {
            return false;
        }
        proof {
            lemma_last_row(self.rows@);
            assert(self.bytes@.subrange(0, self.bytes@.len() - self.column) =~= complete(
                self.rows@,
            ));
        }
        let text = slice_subrange(self.bytes.as_slice(), 0, self.bytes.len() - self.column);
        let panic = KERNEL_PANIC;
        let oops = OOPS;
        let bug = BUG;
        let claim = CLAIM_FAILED;
        let unpacking = UNPACKING_FAILED;
        let level = ISA_LEVEL;
        let libraries = SHARED_LIBRARIES;
        let failed = holds(text, &panic) || holds(text, &oops) || holds(text, &bug) || holds(
            text,
            &claim,
        ) || holds(text, &unpacking) || holds(text, &level) || holds(text, &libraries);
        self.failure_shown = failed;
        failed
    }
}

proof fn lemma_cell(x: int, y: int)
    requires
        0 <= x < COLUMNS,
        0 <= y,
    ensures
        (COLUMNS * y + x) / (COLUMNS as int) == y,
        (COLUMNS * y + x) % (COLUMNS as int) == x,
{
}

/// Where a line stands in the text, and where the next one begins.
proof fn lemma_row_text(bytes: Seq<u8>, rows: Seq<Seq<u8>>, at: int, y: int)
    requires
        is_log(rows),
        0 <= y < rows.len(),
        0 <= at <= bytes.len(),
        bytes.skip(at) == joined(rows.skip(y)),
    ensures
        at + rows[y].len() <= bytes.len(),
        forall|i: int|
            0 <= i < rows[y].len() ==> #[trigger] bytes[at + i] == rows[y][i] && rows[y][i] != 10,
        y + 1 < rows.len() ==> {
            &&& at + rows[y].len() < bytes.len()
            &&& bytes[at + rows[y].len()] == 10
            &&& bytes.skip(at + rows[y].len() + 1) == joined(rows.skip(y + 1))
        },
        y + 1 == rows.len() ==> at + rows[y].len() == bytes.len(),
{
    let rest = rows.skip(y);
    let text = bytes.skip(at);
    assert(rest[0] == rows[y]);
    assert(is_row(rows[y]));
    assert(rest.drop_first() =~= rows.skip(y + 1));
    assert(text.len() >= rest[0].len());
    assert forall|i: int| 0 <= i < rows[y].len() implies #[trigger] bytes[at + i] == rows[y][i]
        && rows[y][i] != 10 by {
        assert(text[i] == bytes[at + i]);
    }
    if y + 1 < rows.len() {
        assert(text[rows[y].len() as int] == 10);
        assert(bytes.skip(at + rows[y].len() + 1) =~= text.skip(rows[y].len() as int + 1));
        assert(text.skip(rows[y].len() as int + 1) =~= joined(rest.drop_first()));
    }
}

/// Whether a needle is in a text.
fn holds(text: &[u8], needle: &[u8]) -> (r: bool)
    requires
        needle@.len() > 0,
    ensures
        r == occurs(text@, needle@),
{
    let mut at: usize = 0;
    while needle.len() <= text.len() && at <= text.len() - needle.len()
        invariant
            needle@.len() > 0,
            at <= text.len() - needle.len() + 1 || (at == 0 && needle.len() > text.len()),
            forall|i: int| 0 <= i < at ==> !#[trigger] occurs_at(text@, needle@, i),
        decreases text.len() + 1 - at,
    {
        if same_bytes(slice_subrange(text, at, at + needle.len()), needle) {
            assert(occurs_at(text@, needle@, at as int));
            return true;
        }
        assert(!occurs_at(text@, needle@, at as int));
        at += 1;
    }
    assert forall|i: int| !#[trigger] occurs_at(text@, needle@, i) by {
        if 0 <= i < at {
        }
    }
    false
}

impl Default for BootLog {
    fn default() -> (r: Self)
        ensures
            r.wf(),
            r@.rows == seq![Seq::<u8>::empty()],
            !r@.failure_shown,
            !r@.console_started,
            !r@.console_finished,
            r@.rendered == screen(seq![Seq::<u8>::empty()]),
    {
        BootLog::new()
    }
}

/// However much is logged, the text stays bounded, its lines fit the screen, and
/// every byte of them can be shown.
pub proof fn law_log_is_bounded_and_printable(rows: Seq<Seq<u8>>, bytes: Seq<u8>, n: int)
    requires
        is_log(rows),
        0 <= n <= bytes.len(),
    ensures
        is_log(with_bytes(rows, bytes, n)),
        joined(with_bytes(rows, bytes, n)).len() <= (COLUMNS + 1) * LINES,
    decreases n,
{
    if n > 0 {
        law_log_is_bounded_and_printable(rows, bytes, n - 1);
        lemma_with_byte(with_bytes(rows, bytes, n - 1), bytes[n - 1]);
    }
    let after = with_bytes(rows, bytes, n);
    assert forall|i: int| 0 <= i < after.len() implies (#[trigger] after[i]).len() <= COLUMNS by {
        assert(is_row(after[i]));
    }
    lemma_joined_length(after);
}

/// A log that has not changed since it was drawn needs no drawing.
pub proof fn law_unchanged_log_draws_nothing(rows: Seq<Seq<u8>>, n: int)
    requires
        0 <= n <= COLUMNS * LINES,
    ensures
        changed(screen(rows), screen(rows), n) == Seq::<Cell>::empty(),
    decreases n,
{
    if n > 0 {
        law_unchanged_log_draws_nothing(rows, n - 1);
    }
}

/// Appending piece by piece gives the log that appending all at once gives.
pub proof fn law_appends_compose(rows: Seq<Seq<u8>>, a: Seq<u8>, b: Seq<u8>)
    ensures
        with_bytes(with_bytes(rows, a, a.len() as int), b, b.len() as int) == with_bytes(
            rows,
            a + b,
            (a + b).len() as int,
        ),
{
    lemma_same_start(rows, a, a + b, a.len() as int);
    lemma_append(rows, a, b, b.len() as int);
}

proof fn lemma_same_start(rows: Seq<Seq<u8>>, a: Seq<u8>, b: Seq<u8>, n: int)
    requires
        n <= a.len(),
        n <= b.len(),
        forall|i: int| 0 <= i < n ==> a[i] == b[i],
    ensures
        with_bytes(rows, a, n) == with_bytes(rows, b, n),
    decreases n,
{
    if n > 0 {
        lemma_same_start(rows, a, b, n - 1);
    }
}

proof fn lemma_append(rows: Seq<Seq<u8>>, a: Seq<u8>, b: Seq<u8>, n: int)
    requires
        0 <= n <= b.len(),
        with_bytes(rows, a, a.len() as int) == with_bytes(rows, a + b, a.len() as int),
    ensures
        with_bytes(with_bytes(rows, a, a.len() as int), b, n) == with_bytes(
            rows,
            a + b,
            a.len() + n,
        ),
    decreases n,
{
    if n > 0 {
        lemma_append(rows, a, b, n - 1);
        assert((a + b)[a.len() + n - 1] == b[n - 1]);
    }
}

/// All lines that the first `n` of some bytes make, however many.
pub open spec fn all_lines(bytes: Seq<u8>, n: int) -> Seq<Seq<u8>>
    decreases n,
{
    if n <= 0 {
        seq![Seq::empty()]
    } else {
        let lines = all_lines(bytes, n - 1);
        let byte = bytes[n - 1];
        if byte == 13 {
            lines
        } else if byte == 10 {
            lines.push(Seq::empty())
        } else if lines.last().len() >= COLUMNS {
            lines.push(seq![printable(byte)])
        } else {
            lines.update(lines.len() - 1, lines.last().push(printable(byte)))
        }
    }
}

/// The last of some lines, as many as a log holds.
pub open spec fn last_lines(lines: Seq<Seq<u8>>) -> Seq<Seq<u8>> {
    if lines.len() <= LINES {
        lines
    } else {
        lines.skip(lines.len() - LINES)
    }
}

/// A log holds the last lines of everything that was ever appended to it.
pub proof fn law_log_holds_the_last_lines(bytes: Seq<u8>, n: int)
    requires
        0 <= n <= bytes.len(),
    ensures
        with_bytes(seq![Seq::<u8>::empty()], bytes, n) == last_lines(all_lines(bytes, n)),
        all_lines(bytes, n).len() >= 1,
    decreases n,
{
    if n > 0 {
        law_log_holds_the_last_lines(bytes, n - 1);
        let before = all_lines(bytes, n - 1);
        let rows = last_lines(before);
        let byte = bytes[n - 1];
        assert(rows.last() == before.last());
        assert(with_line(rows) =~= last_lines(before.push(Seq::empty())));
        if byte != 13 && byte != 10 {
            let shown = printable(byte);
            if before.last().len() >= COLUMNS {
                let room = with_line(rows);
                assert(room.last().push(shown) =~= seq![shown]);
                assert(room.update(room.len() - 1, seq![shown]) =~= last_lines(
                    before.push(seq![shown]),
                ));
            } else {
                let longer = before.last().push(shown);
                assert(rows.update(rows.len() - 1, longer) =~= last_lines(
                    before.update(before.len() - 1, longer),
                ));
            }
        }
    }
}

/// A log always fits: its lines are bounded and printable, and it keeps what it has
/// drawn in each cell of the screen.
pub proof fn law_log_fits(log: BootLog)
    requires
        log.wf(),
    ensures
        is_log(log@.rows),
        log@.rendered.len() == COLUMNS * LINES,
{
}

/// What the cells of a screen show after some were drawn.
pub open spec fn with_cells(shown: Seq<u8>, cells: Seq<Cell>) -> Seq<u8>
    decreases cells.len(),
{
    if cells.len() == 0 {
        shown
    } else {
        let last = cells.last();
        with_cells(shown, cells.drop_last()).update(96 * last.y + last.x, last.byte)
    }
}

/// Drawing the cells that change turns what the screen showed into what the log shows,
/// each cell in its place of the 96 columns and 24 lines, and no cell is drawn for nothing.
pub proof fn law_redraw_brings_the_screen_up_to_date(before: Seq<u8>, after: Seq<u8>, i: int)
    requires
        before.len() == 96 * 24,
        after.len() == 96 * 24,
    ensures
        with_cells(before, changed(before, after, COLUMNS * LINES)) == after,
        0 <= i < changed(before, after, COLUMNS * LINES).len() ==> {
            let cell = changed(before, after, COLUMNS * LINES)[i];
            &&& cell.x < 96 && cell.y < 24
            &&& before[96 * cell.y + cell.x] != cell.byte
        },
{
    lemma_drawn_so_far(before, after, 2304);
    assert(with_cells(before, changed(before, after, 2304)) =~= after);
}

proof fn lemma_drawn_so_far(before: Seq<u8>, after: Seq<u8>, n: int)
    requires
        before.len() == 96 * 24,
        after.len() == 96 * 24,
        0 <= n <= 96 * 24,
    ensures
        ({
            let cells = changed(before, after, n);
            let shown = with_cells(before, cells);
            &&& shown.len() == before.len()
            &&& forall|j: int| 0 <= j < n ==> #[trigger] shown[j] == after[j]
            &&& forall|j: int| n <= j < before.len() ==> #[trigger] shown[j] == before[j]
            &&& forall|j: int|
                0 <= j < cells.len() ==> (#[trigger] cells[j]).x < 96 && cells[j].y < 24 && before[96
                    * cells[j].y + cells[j].x] != cells[j].byte
        }),
    decreases n,
{
    if n > 0 {
        lemma_drawn_so_far(before, after, n - 1);
        let few = changed(before, after, n - 1);
        let cells = changed(before, after, n);
        if before[n - 1] != after[n - 1] {
            assert(cells.drop_last() =~= few);
            let last = cells.last();
            assert(96 * last.y + last.x == n - 1);
            assert forall|j: int| 0 <= j < cells.len() implies (#[trigger] cells[j]).x < 96
                && cells[j].y < 24 && before[96 * cells[j].y + cells[j].x] != cells[j].byte by {
                if j < few.len() {
                    assert(cells[j] == few[j]);
                }
            }
        }
    }
}

/// Each cell of the screen shows the byte of its line and column, and a space where the
/// line is not so long or there is no such line.
pub proof fn law_screen_shows_the_lines(rows: Seq<Seq<u8>>, x: int, y: int)
    requires
        0 <= x < 96,
        0 <= y < 24,
    ensures
        screen(rows).len() == 96 * 24,
        screen(rows)[96 * y + x] == (if y < rows.len() && x < rows[y].len() {
            rows[y][x]
        } else {
            0x20
        }),
{
    lemma_cell(x, y);
}

/// A printable byte is shown as itself, a tab as a space, and any other byte as a question
/// mark. A carriage return changes nothing, and a newline begins an empty line; a byte that
/// does not fit the 96 columns of its line begins the next.
pub proof fn law_bytes_are_shown(rows: Seq<Seq<u8>>, byte: u8)
    requires
        is_log(rows),
    ensures
        byte == 13 ==> with_byte(rows, byte) == rows,
        byte == 10 ==> with_byte(rows, byte).last().len() == 0,
        byte != 13 && byte != 10 ==> {
            let line = with_byte(rows, byte).last();
            &&& line.len() == (if rows.last().len() == 96 {
                1nat
            } else {
                rows.last().len() + 1
            })
            &&& line.last() == (if byte == 9 {
                0x20
            } else if byte < 0x20 || byte > 0x7e {
                0x3f
            } else {
                byte
            })
            &&& rows.last().len() < 96 ==> line.drop_last() == rows.last()
        },
        rows.len() < 24 && (byte == 10 || byte != 13 && rows.last().len() == 96) ==> with_byte(
            rows,
            byte,
        ).drop_last() == rows,
        rows.len() == 24 && (byte == 10 || byte != 13 && rows.last().len() == 96) ==> with_byte(
            rows,
            byte,
        ).drop_last() == rows.drop_first(),
{
    let after = with_byte(rows, byte);
    assert(is_row(rows[rows.len() - 1]));
    if byte != 13 && byte != 10 {
        if rows.last().len() < 96 {
            assert(after.last().drop_last() =~= rows.last());
        } else if rows.len() < 24 {
            assert(after.drop_last() =~= rows);
        } else {
            assert(after.drop_last() =~= rows.drop_first());
        }
    } else if byte == 10 {
        if rows.len() < 24 {
            assert(after.drop_last() =~= rows);
        } else {
            assert(after.drop_last() =~= rows.drop_first());
        }
    }
}

/// A failure that was reported stays one, whatever stands before it and behind it.
pub proof fn law_failures_are_seen_anywhere(before: Seq<u8>, text: Seq<u8>, behind: Seq<u8>)
    requires
        reports_failure(text),
    ensures
        reports_failure(before + text + behind),
{
    lemma_seen_anywhere(before, text, behind, KERNEL_PANIC@);
    lemma_seen_anywhere(before, text, behind, OOPS@);
    lemma_seen_anywhere(before, text, behind, BUG@);
    lemma_seen_anywhere(before, text, behind, CLAIM_FAILED@);
    lemma_seen_anywhere(before, text, behind, UNPACKING_FAILED@);
    lemma_seen_anywhere(before, text, behind, ISA_LEVEL@);
    lemma_seen_anywhere(before, text, behind, SHARED_LIBRARIES@);
}

proof fn lemma_seen_anywhere(before: Seq<u8>, text: Seq<u8>, behind: Seq<u8>, needle: Seq<u8>)
    ensures
        occurs(text, needle) ==> occurs(before + text + behind, needle),
{
    if occurs(text, needle) {
        let at = choose|at: int| #[trigger] occurs_at(text, needle, at);
        let all = before + text + behind;
        let found = before.len() + at;
        assert(all.subrange(found, found + needle.len()) =~= text.subrange(at, at + needle.len()));
        assert(occurs_at(all, needle, found));
    }
}

/// Each of the words that report a failure reports one.
pub proof fn law_every_failure_word_reports()
    ensures
        reports_failure(KERNEL_PANIC@),
        reports_failure(OOPS@),
        reports_failure(BUG@),
        reports_failure(CLAIM_FAILED@),
        reports_failure(UNPACKING_FAILED@),
        reports_failure(ISA_LEVEL@),
        reports_failure(SHARED_LIBRARIES@),
{
    lemma_occurs_in_itself(KERNEL_PANIC@);
    lemma_occurs_in_itself(OOPS@);
    lemma_occurs_in_itself(BUG@);
    lemma_occurs_in_itself(CLAIM_FAILED@);
    lemma_occurs_in_itself(UNPACKING_FAILED@);
    lemma_occurs_in_itself(ISA_LEVEL@);
    lemma_occurs_in_itself(SHARED_LIBRARIES@);
}

proof fn lemma_occurs_in_itself(needle: Seq<u8>)
    ensures
        occurs(needle, needle),
{
    assert(needle.subrange(0, needle.len() as int) =~= needle);
    assert(occurs_at(needle, needle, 0));
}

} // verus!
