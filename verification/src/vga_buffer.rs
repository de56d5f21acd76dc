//! The text-mode display core: the 25x80 grid of character cells and the
//! writer that renders bytes onto its bottom row, wrapping long lines and
//! scrolling the grid upward.
//!
//! The grid is owned data, so the verifier sees every cell update. On real
//! hardware the same grid lives at a fixed physical address and every cell
//! access must be a non-elidable (volatile) memory access; that
//! reinterpretation of raw memory is inherently unsafe and stays with the
//! unverified binary glue, which mirrors this grid into the hardware buffer.

use vstd::prelude::*;
use vstd::string::StringSliceAdditionalSpecFns;

use crate::color::ColorCode;

verus! {

/// Number of rows of the text-mode grid.
pub const BUFFER_HEIGHT: usize = 25;

/// Number of columns of the text-mode grid.
pub const BUFFER_WIDTH: usize = 80;

/// One display cell: a code-page-437 character code and its colour
/// attribute byte. A cell is always replaced wholesale.
#[derive(Debug, Clone, Copy, PartialEq, Eq, Structural)]
pub struct ScreenChar {
    pub ascii_character: u8,
    pub color_code: ColorCode,
}

/// A blank cell: a space rendered in the given colour.
pub open spec fn blank_cell(color: ColorCode) -> ScreenChar {
    ScreenChar { ascii_character: 0x20, color_code: color }
}

/// A whole row of blank cells.
pub open spec fn blank_row(color: ColorCode) -> Seq<ScreenChar> {
    Seq::new(BUFFER_WIDTH as nat, |c: int| blank_cell(color))
}

/// The 25x80 cell grid. Each cell is read and written individually;
/// out-of-bounds coordinates are excluded by contract.
pub struct Buffer {
    chars: Vec<Vec<ScreenChar>>,
}

impl View for Buffer {
    type V = Seq<Seq<ScreenChar>>;

    closed spec fn view(&self) -> Seq<Seq<ScreenChar>> {
        Seq::new(self.chars@.len(), |r: int| self.chars@[r]@)
    }
}

/// One row of blank cells as owned data.
#[verifier::loop_isolation(false)]
fn blank_row_vec(color: ColorCode) -> (row: Vec<ScreenChar>)
    ensures
        row@ == blank_row(color),
{
    let mut row: Vec<ScreenChar> = Vec::new();
    let blank = ScreenChar { ascii_character: 0x20, color_code: color };
    let mut c: usize = 0;
    while c < BUFFER_WIDTH
        invariant
            c <= BUFFER_WIDTH,
            row@ == Seq::new(c as nat, |j: int| blank_cell(color)),
        decreases BUFFER_WIDTH - c,
    {
        row.push(blank);
        proof {
            assert(row@ =~= Seq::new((c + 1) as nat, |j: int| blank_cell(color)));
        }
        c = c + 1;
    }
    proof {
        assert(row@ =~= blank_row(color));
    }
    row
}

impl Buffer {
    /// The grid has exactly 25 rows of exactly 80 cells each.
    pub open spec fn wf(self) -> bool {
        &&& self@.len() == BUFFER_HEIGHT
        &&& forall|r: int| 0 <= r < BUFFER_HEIGHT ==> (#[trigger] self@[r]).len() == BUFFER_WIDTH
    }

    /// A grid of blank cells in the given colour.
    #[verifier::loop_isolation(false)]
    pub fn new(color: ColorCode) -> (b: Buffer)
        ensures
            b.wf(),
            b@ == Seq::new(BUFFER_HEIGHT as nat, |r: int| blank_row(color)),
    {
        let mut chars: Vec<Vec<ScreenChar>> = Vec::new();
        let mut r: usize = 0;
        while r < BUFFER_HEIGHT
            invariant
                r <= BUFFER_HEIGHT,
                chars@.len() == r,
                forall|i: int| 0 <= i < r ==> (#[trigger] chars@[i])@ == blank_row(color),
            decreases BUFFER_HEIGHT - r,
        {
            chars.push(blank_row_vec(color));
            r = r + 1;
        }
        let b = Buffer { chars };
        proof {
            assert(b@ =~= Seq::new(BUFFER_HEIGHT as nat, |i: int| blank_row(color)));
        }
        b
    }

    /// Reads one cell back from the grid.
    pub fn read(&self, row: usize, col: usize) -> (cell: ScreenChar)
        requires
            self.wf(),
            row < BUFFER_HEIGHT,
            col < BUFFER_WIDTH,
        ensures
            cell == self@[row as int][col as int],
    {
        proof {
            assert(self.chars@.len() == self@.len());
            assert(self.chars@[row as int]@ == self@[row as int]);
        }
        self.chars[row][col]
    }

    /// Replaces one cell of the grid.
    pub fn write(&mut self, row: usize, col: usize, cell: ScreenChar)
        requires
            old(self).wf(),
            row < BUFFER_HEIGHT,
            col < BUFFER_WIDTH,
        ensures
            final(self).wf(),
            final(self)@ == old(self)@.update(
                row as int,
                old(self)@[row as int].update(col as int, cell),
            ),
    {
        proof {
            assert(self.chars@.len() == self@.len());
            assert(self.chars@[row as int]@ == self@[row as int]);
        }
        self.chars[row][col] = cell;
        proof {
            assert(self@ =~= old(self)@.update(
                row as int,
                old(self)@[row as int].update(col as int, cell),
            ));
        }
    }
}

/// The byte that starts a new line.
pub const NEWLINE: u8 = 0x0a;

/// The glyph substituted for any byte outside the printable range.
pub const PLACEHOLDER: u8 = 0xfe;

/// The whole observable state of a writer: the cursor column, the colour in
/// force, and the cell grid.
pub ghost struct VgaState {
    pub col: int,
    pub color: ColorCode,
    pub screen: Seq<Seq<ScreenChar>>,
}

/// A state the writer can actually be in: the grid is 25x80 and the cursor
/// never runs past the end of a row. A column of exactly 80 is the transient
/// "row full" position, resolved by a wrap before the next byte is placed.
pub open spec fn state_wf(s: VgaState) -> bool {
    &&& 0 <= s.col <= BUFFER_WIDTH
    &&& s.screen.len() == BUFFER_HEIGHT
    &&& forall|r: int| 0 <= r < BUFFER_HEIGHT ==> (#[trigger] s.screen[r]).len() == BUFFER_WIDTH
}

/// The grid after one scroll: every row moves up by one, the old top row is
/// discarded, and the bottom row becomes blank in the given colour.
pub open spec fn scrolled(screen: Seq<Seq<ScreenChar>>, color: ColorCode) -> Seq<Seq<ScreenChar>> {
    Seq::new(
        BUFFER_HEIGHT as nat,
        |r: int|
            if r < BUFFER_HEIGHT - 1 {
                screen[r + 1]
            } else {
                blank_row(color)
            },
    )
}

/// The writer state after a line break: scrolled grid, cursor at column 0.
pub open spec fn after_new_line(s: VgaState) -> VgaState {
    VgaState { col: 0, color: s.color, screen: scrolled(s.screen, s.color) }
}

/// The writer state after one byte is rendered: a newline breaks the line;
/// any other byte lands in the bottom row at the cursor (after a wrap if the
/// row is full) and advances the cursor.
pub open spec fn after_byte(s: VgaState, b: u8) -> VgaState {
    if b == NEWLINE {
        after_new_line(s)
    } else {
        let t = if s.col >= BUFFER_WIDTH {
            after_new_line(s)
        } else {
            s
        };
        VgaState {
            col: t.col + 1,
            color: t.color,
            screen: t.screen.update(
                BUFFER_HEIGHT - 1,
                t.screen[BUFFER_HEIGHT - 1].update(
                    t.col,
                    ScreenChar { ascii_character: b, color_code: t.color },
                ),
            ),
        }
    }
}

/// Printable ASCII and newline pass through; every other byte is replaced
/// by the placeholder glyph. Bytes of a multi-byte character are filtered
/// one by one, so non-ASCII text renders as placeholder glyphs.
pub open spec fn filtered(b: u8) -> u8 {
    if (0x20 <= b && b <= 0x7e) || b == NEWLINE {
        b
    } else {
        PLACEHOLDER
    }
}

/// The writer state after a byte string is rendered in order, each byte
/// filtered and then placed.
pub open spec fn after_bytes(s: VgaState, bytes: Seq<u8>) -> VgaState
    decreases bytes.len(),
{
    if bytes.len() == 0 {
        s
    } else {
        after_bytes(after_byte(s, filtered(bytes[0])), bytes.drop_first())
    }
}

/// Rendering a byte keeps the state well formed and never changes the
/// colour in force.
pub proof fn lemma_after_byte_wf(s: VgaState, b: u8)
    requires
        state_wf(s),
    ensures
        state_wf(after_byte(s, b)),
        after_byte(s, b).color == s.color,
{
}

/// Rendering a byte string keeps the state well formed and never changes
/// the colour in force.
pub proof fn lemma_after_bytes_wf(s: VgaState, bytes: Seq<u8>)
    requires
        state_wf(s),
    ensures
        state_wf(after_bytes(s, bytes)),
        after_bytes(s, bytes).color == s.color,
    decreases bytes.len(),
{
    if bytes.len() > 0 {
        lemma_after_byte_wf(s, filtered(bytes[0]));
        lemma_after_bytes_wf(after_byte(s, filtered(bytes[0])), bytes.drop_first());
    }
}

/// Rendering one more byte after a byte string is the same as rendering
/// the extended string.
proof fn lemma_after_bytes_snoc(s: VgaState, bytes: Seq<u8>, b: u8)
    ensures
        after_bytes(s, bytes.push(b)) == after_byte(after_bytes(s, bytes), filtered(b)),
    decreases bytes.len(),
{
    if bytes.len() == 0 {
        assert(bytes.push(b)[0] == b);
        assert(bytes.push(b).drop_first() =~= Seq::<u8>::empty());
        assert(after_bytes(s, bytes.push(b)) == after_bytes(
            after_byte(s, filtered(b)),
            bytes.push(b).drop_first(),
        ));
    } else {
        assert(bytes.push(b)[0] == bytes[0]);
        assert(bytes.push(b).drop_first() =~= bytes.drop_first().push(b));
        lemma_after_bytes_snoc(after_byte(s, filtered(bytes[0])), bytes.drop_first(), b);
    }
}

/// The rendering state machine: owns the grid, the cursor column, and the
/// colour that new cells receive. All output lands in the bottom row;
/// vertical motion happens only by scrolling.
pub struct Writer {
    column_position: usize,
    color_code: ColorCode,
    buffer: Buffer,
}

impl View for Writer {
    type V = VgaState;

    closed spec fn view(&self) -> VgaState {
        VgaState {
            col: self.column_position as int,
            color: self.color_code,
            screen: self.buffer@,
        }
    }
}

impl Writer {
    /// The writer's invariant.
    pub open spec fn wf(self) -> bool {
        state_wf(self@)
    }

    /// A writer over the given grid, cursor at column 0.
    pub fn new(color_code: ColorCode, buffer: Buffer) -> (w: Writer)
        requires
            buffer.wf(),
        ensures
            w.wf(),
            w@ == (VgaState { col: 0, color: color_code, screen: buffer@ }),
    {
        Writer { column_position: 0, color_code, buffer }
    }

    /// The cursor column.
    pub fn column_position(&self) -> (c: usize)
        ensures
            c == self@.col,
    {
        self.column_position
    }

    /// The colour newly written cells receive.
    pub fn color_code(&self) -> (cc: ColorCode)
        ensures
            cc == self@.color,
    {
        self.color_code
    }

    /// Reads one cell back from the grid, for callers that check what is
    /// on the screen.
    pub fn read_cell(&self, row: usize, col: usize) -> (cell: ScreenChar)
        requires
            self.wf(),
            row < BUFFER_HEIGHT,
            col < BUFFER_WIDTH,
        ensures
            cell == self@.screen[row as int][col as int],
    {
        self.buffer.read(row, col)
    }

    /// Renders one byte: a newline breaks the line, any other byte lands at
    /// the cursor (wrapping first if the row is full) and advances it.
    pub fn write_byte(&mut self, byte: u8)
        requires
            old(self).wf(),
        ensures
            final(self).wf(),
            final(self)@ == after_byte(old(self)@, byte),
    {
        if byte == NEWLINE {
            self.new_line();
        } else {
            if self.column_position >= BUFFER_WIDTH {
                self.new_line();
            }
            let col = self.column_position;
            let cell = ScreenChar { ascii_character: byte, color_code: self.color_code };
            self.buffer.write(BUFFER_HEIGHT - 1, col, cell);
            self.column_position = col + 1;
        }
    }

    /// Scrolls the grid up one row, discarding the old top row, blanks the
    /// bottom row, and returns the cursor to column 0.
    #[verifier::loop_isolation(false)]
    pub fn new_line(&mut self)
        requires
            old(self).wf(),
        ensures
            final(self).wf(),
            final(self)@ == after_new_line(old(self)@),
    {
        let mut row: usize = 1;
        while row < BUFFER_HEIGHT
            invariant
                1 <= row <= BUFFER_HEIGHT,
                self.buffer.wf(),
                self.column_position == old(self).column_position,
                self.color_code == old(self).color_code,
                forall|i: int| 0 <= i < row - 1 ==> #[trigger] self.buffer@[i]
                    == old(self)@.screen[i + 1],
                forall|i: int| row - 1 <= i < BUFFER_HEIGHT ==> #[trigger] self.buffer@[i]
                    == old(self)@.screen[i],
            decreases BUFFER_HEIGHT - row,
        {
            let mut col: usize = 0;
            while col < BUFFER_WIDTH
                invariant
                    1 <= row < BUFFER_HEIGHT,
                    col <= BUFFER_WIDTH,
                    self.buffer.wf(),
                    self.column_position == old(self).column_position,
                    self.color_code == old(self).color_code,
                    forall|i: int| 0 <= i < row - 1 ==> #[trigger] self.buffer@[i]
                        == old(self)@.screen[i + 1],
                    forall|i: int| row <= i < BUFFER_HEIGHT ==> #[trigger] self.buffer@[i]
                        == old(self)@.screen[i],
                    forall|j: int| 0 <= j < col ==> #[trigger] self.buffer@[row - 1][j]
                        == old(self)@.screen[row as int][j],
                decreases BUFFER_WIDTH - col,
            {
                let cell = self.buffer.read(row, col);
                self.buffer.write(row - 1, col, cell);
                col = col + 1;
            }
            proof {
                assert(self.buffer@[row - 1] =~= old(self)@.screen[row as int]);
            }
            row = row + 1;
        }
        self.clear_row(BUFFER_HEIGHT - 1);
        self.column_position = 0;
        proof {
            assert(self@.screen =~= after_new_line(old(self)@).screen);
        }
    }

    /// Blanks every cell of one row in the current colour.
    #[verifier::loop_isolation(false)]
    pub fn clear_row(&mut self, row: usize)
        requires
            old(self).wf(),
            row < BUFFER_HEIGHT,
        ensures
            final(self).wf(),
            final(self)@ == (VgaState {
                col: old(self)@.col,
                color: old(self)@.color,
                screen: old(self)@.screen.update(row as int, blank_row(old(self)@.color)),
            }),
    {
        let blank = ScreenChar { ascii_character: 0x20, color_code: self.color_code };
        let mut col: usize = 0;
        while col < BUFFER_WIDTH
            invariant
                col <= BUFFER_WIDTH,
                self.buffer.wf(),
                self.column_position == old(self).column_position,
                self.color_code == old(self).color_code,
                forall|i: int| 0 <= i < BUFFER_HEIGHT && i != row ==> #[trigger] self.buffer@[i]
                    == old(self)@.screen[i],
                forall|j: int| 0 <= j < col ==> #[trigger] self.buffer@[row as int][j]
                    == blank_cell(self.color_code),
            decreases BUFFER_WIDTH - col,
        {
            self.buffer.write(row, col, blank);
            col = col + 1;
        }
        proof {
            assert(self.buffer@[row as int] =~= blank_row(old(self)@.color));
            assert(self@.screen =~= old(self)@.screen.update(
                row as int,
                blank_row(old(self)@.color),
            ));
        }
    }

    /// Renders a string byte by byte, in order: printable ASCII and newline
    /// pass through, every other byte becomes the placeholder glyph.
    pub fn write_string(&mut self, s: &str)
        requires
            old(self).wf(),
        ensures
            final(self).wf(),
            final(self)@ == after_bytes(old(self)@, s.spec_bytes()),
    {
        let bytes: &[u8] = s.as_bytes();
        let n = bytes.len();
        let mut i: usize = 0;
        while i < n
            invariant
                old(self).wf(),
                n == bytes@.len(),
                bytes@ == s.spec_bytes(),
                i <= n,
                self.wf(),
                self@ == after_bytes(old(self)@, bytes@.take(i as int)),
            decreases n - i,
        {
            let b = bytes[i];
            proof {
                lemma_after_bytes_snoc(old(self)@, bytes@.take(i as int), b);
                assert(bytes@.take(i + 1) =~= bytes@.take(i as int).push(b));
            }
            if (0x20 <= b && b <= 0x7e) || b == NEWLINE {
                self.write_byte(b);
            } else {
                self.write_byte(PLACEHOLDER);
            }
            i = i + 1;
        }
        proof {
            assert(bytes@.take(n as int) =~= bytes@);
        }
    }
}

/// The sink for already-formatted text: hands one fragment of it to the
/// writer unchanged. Rendering text never fails, so there is no error path.
pub fn _print(writer: &mut Writer, s: &str)
    requires
        old(writer).wf(),
    ensures
        final(writer).wf(),
        final(writer)@ == after_bytes(old(writer)@, s.spec_bytes()),
{
    writer.write_string(s);
}

/// Rendering two byte strings one after the other is the same as rendering
/// their concatenation.
proof fn lemma_after_bytes_append(s: VgaState, a: Seq<u8>, b: Seq<u8>)
    ensures
        after_bytes(s, a + b) == after_bytes(after_bytes(s, a), b),
    decreases a.len(),
{
    if a.len() == 0 {
        assert(a + b =~= b);
    } else {
        assert((a + b)[0] == a[0]);
        assert((a + b).drop_first() =~= a.drop_first() + b);
        assert(after_bytes(s, a + b) == after_bytes(
            after_byte(s, filtered(a[0])),
            (a + b).drop_first(),
        ));
        lemma_after_bytes_append(after_byte(s, filtered(a[0])), a.drop_first(), b);
    }
}

/// A run of printable bytes that fits in the rest of the bottom row lands
/// there cell for cell, in the writer's colour, touching nothing else.
proof fn lemma_printable_run(s: VgaState, bytes: Seq<u8>)
    requires
        state_wf(s),
        s.col + bytes.len() <= BUFFER_WIDTH,
        forall|i: int| 0 <= i < bytes.len() ==> 0x20 <= #[trigger] bytes[i] <= 0x7e,
    ensures
        state_wf(after_bytes(s, bytes)),
        after_bytes(s, bytes).col == s.col + bytes.len(),
        after_bytes(s, bytes).color == s.color,
        forall|r: int| 0 <= r < BUFFER_HEIGHT - 1 ==> #[trigger] after_bytes(s, bytes).screen[r]
            == s.screen[r],
        forall|j: int|
            0 <= j < BUFFER_WIDTH && !(s.col <= j < s.col + bytes.len())
                ==> #[trigger] after_bytes(s, bytes).screen[BUFFER_HEIGHT - 1][j]
                == s.screen[BUFFER_HEIGHT - 1][j],
        forall|i: int|
            0 <= i < bytes.len() ==> #[trigger] after_bytes(s, bytes).screen[BUFFER_HEIGHT - 1][
                s.col + i
            ] == (ScreenChar { ascii_character: bytes[i], color_code: s.color }),
    decreases bytes.len(),
{
    if bytes.len() > 0 {
        let b = bytes[0];
        let s1 = after_byte(s, b);
        let rest = bytes.drop_first();
        lemma_after_byte_wf(s, b);
        assert(after_bytes(s, bytes) == after_bytes(s1, rest));
        assert forall|i: int| 0 <= i < rest.len() implies 0x20 <= #[trigger] rest[i] <= 0x7e by {
            assert(rest[i] == bytes[i + 1]);
        }
        lemma_printable_run(s1, rest);
        let t = after_bytes(s, bytes);
        assert forall|r: int| 0 <= r < BUFFER_HEIGHT - 1 implies #[trigger] t.screen[r]
            == s.screen[r] by {
            assert(t.screen[r] == s1.screen[r]);
        }
        assert forall|j: int|
            0 <= j < BUFFER_WIDTH && !(s.col <= j < s.col + bytes.len()) implies #[trigger] t.screen[
            BUFFER_HEIGHT - 1
        ][j] == s.screen[BUFFER_HEIGHT - 1][j] by {
            assert(t.screen[BUFFER_HEIGHT - 1][j] == s1.screen[BUFFER_HEIGHT - 1][j]);
        }
        assert forall|i: int| 0 <= i < bytes.len() implies #[trigger] t.screen[BUFFER_HEIGHT - 1][
            s.col + i
        ] == (ScreenChar { ascii_character: bytes[i], color_code: s.color }) by {
            if i == 0 {
                assert(s1.screen[BUFFER_HEIGHT - 1][s.col] == (ScreenChar {
                    ascii_character: b,
                    color_code: s.color,
                }));
                assert(t.screen[BUFFER_HEIGHT - 1][s.col] == s1.screen[BUFFER_HEIGHT - 1][s.col]);
            } else {
                assert(rest[i - 1] == bytes[i]);
                assert(t.screen[BUFFER_HEIGHT - 1][s1.col + (i - 1)] == (ScreenChar {
                    ascii_character: rest[i - 1],
                    color_code: s1.color,
                }));
            }
        }
    }
}

/// Law: a printable string of at most one row's width, written from column
/// 0 onto a blank bottom row, can be read back from that row cell for cell,
/// each cell carrying the writer's colour, with the cursor just past it.
pub proof fn lemma_line_readback(s: VgaState, bytes: Seq<u8>)
    requires
        state_wf(s),
        s.col == 0,
        s.screen[BUFFER_HEIGHT - 1] == blank_row(s.color),
        bytes.len() <= BUFFER_WIDTH,
        forall|i: int| 0 <= i < bytes.len() ==> 0x20 <= #[trigger] bytes[i] <= 0x7e,
    ensures
        after_bytes(s, bytes).col == bytes.len(),
        after_bytes(s, bytes).color == s.color,
        forall|i: int|
            0 <= i < bytes.len() ==> #[trigger] after_bytes(s, bytes).screen[BUFFER_HEIGHT - 1][i]
                == (ScreenChar { ascii_character: bytes[i], color_code: s.color }),
{
    lemma_printable_run(s, bytes);
    assert forall|i: int|
        0 <= i < bytes.len() implies #[trigger] after_bytes(s, bytes).screen[BUFFER_HEIGHT - 1][i]
        == (ScreenChar { ascii_character: bytes[i], color_code: s.color }) by {
        assert(after_bytes(s, bytes).screen[BUFFER_HEIGHT - 1][s.col + i] == (ScreenChar {
            ascii_character: bytes[i],
            color_code: s.color,
        }));
    }
}

/// Law: a printable string longer than one row but at most two, written
/// from column 0, wraps exactly once: the cursor ends at `len - 80`, the
/// row above the bottom holds the first 80 cells, and the bottom row holds
/// the overflow. A still longer string wraps again as soon as the 161st
/// byte is placed, so it is excluded here.
pub proof fn lemma_overflow_wraps_once(s: VgaState, bytes: Seq<u8>)
    requires
        state_wf(s),
        s.col == 0,
        BUFFER_WIDTH < bytes.len() <= 2 * BUFFER_WIDTH,
        forall|i: int| 0 <= i < bytes.len() ==> 0x20 <= #[trigger] bytes[i] <= 0x7e,
    ensures
        after_bytes(s, bytes).col == bytes.len() - BUFFER_WIDTH,
        after_bytes(s, bytes).color == s.color,
        forall|j: int|
            0 <= j < BUFFER_WIDTH ==> #[trigger] after_bytes(s, bytes).screen[BUFFER_HEIGHT - 2][j]
                == (ScreenChar { ascii_character: bytes[j], color_code: s.color }),
        forall|i: int|
            0 <= i < bytes.len() - BUFFER_WIDTH ==> #[trigger] after_bytes(s, bytes).screen[
                BUFFER_HEIGHT - 1
            ][i] == (ScreenChar { ascii_character: bytes[BUFFER_WIDTH + i], color_code: s.color }),
{
    let w = BUFFER_WIDTH as int;
    let a = bytes.take(w);
    let rest = bytes.skip(w);
    assert(bytes =~= a + rest);
    lemma_after_bytes_append(s, a, rest);
    assert forall|i: int| 0 <= i < a.len() implies 0x20 <= #[trigger] a[i] <= 0x7e by {
        assert(a[i] == bytes[i]);
    }
    lemma_printable_run(s, a);
    let s80 = after_bytes(s, a);
    let b0 = rest[0];
    assert(rest[0] == bytes[w]);
    let sn = after_new_line(s80);
    let s81 = after_byte(s80, b0);
    lemma_after_byte_wf(s80, b0);
    assert(after_bytes(s80, rest) == after_bytes(s81, rest.drop_first()));
    let rest1 = rest.drop_first();
    assert forall|i: int| 0 <= i < rest1.len() implies 0x20 <= #[trigger] rest1[i] <= 0x7e by {
        assert(rest1[i] == bytes[w + 1 + i]);
    }
    lemma_printable_run(s81, rest1);
    let t = after_bytes(s, bytes);
    assert(t == after_bytes(s81, rest1));
    assert forall|j: int| 0 <= j < w implies #[trigger] t.screen[BUFFER_HEIGHT - 2][j]
        == (ScreenChar { ascii_character: bytes[j], color_code: s.color }) by {
        assert(t.screen[BUFFER_HEIGHT - 2] == s81.screen[BUFFER_HEIGHT - 2]);
        assert(s81.screen[BUFFER_HEIGHT - 2] == sn.screen[BUFFER_HEIGHT - 2]);
        assert(sn.screen[BUFFER_HEIGHT - 2] == s80.screen[BUFFER_HEIGHT - 1]);
        assert(s80.screen[BUFFER_HEIGHT - 1][s.col + j] == (ScreenChar {
            ascii_character: a[j],
            color_code: s.color,
        }));
        assert(a[j] == bytes[j]);
    }
    assert forall|i: int| 0 <= i < bytes.len() - w implies #[trigger] t.screen[BUFFER_HEIGHT - 1][i]
        == (ScreenChar { ascii_character: bytes[w + i], color_code: s.color }) by {
        if i == 0 {
            assert(s81.screen[BUFFER_HEIGHT - 1][0] == (ScreenChar {
                ascii_character: b0,
                color_code: s.color,
            }));
            assert(t.screen[BUFFER_HEIGHT - 1][0] == s81.screen[BUFFER_HEIGHT - 1][0]);
        } else {
            assert(rest1[i - 1] == bytes[w + i]);
            assert(t.screen[BUFFER_HEIGHT - 1][s81.col + (i - 1)] == (ScreenChar {
                ascii_character: rest1[i - 1],
                color_code: s81.color,
            }));
        }
    }
}

} // verus!
