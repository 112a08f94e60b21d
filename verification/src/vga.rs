//! The text console model: a fixed 25x80 character grid written at the
//! bottom row, scrolling one row up on each line feed. The raw video
//! memory behind it is the platform's; every cursor and scroll decision
//! is made here.

#![verifier::loop_isolation(false)]

use vstd::prelude::*;
use vstd::string::StringSliceAdditionalSpecFns;

verus! {

/// Height of the text grid, in rows.
pub const BUFFER_HEIGHT: usize = 25;

/// Width of the text grid, in columns.
pub const BUFFER_WIDTH: usize = 80;

/// The sixteen console colors.
#[derive(Clone, Copy, PartialEq, Eq, Structural, Debug)]
pub enum Color {
    Black,
    Blue,
    Green,
    Cyan,
    Red,
    Magenta,
    Brown,
    LightGray,
    DarkGray,
    LightBlue,
    LightGreen,
    LightCyan,
    LightRed,
    Pink,
    Yellow,
    White,
}

impl Color {
    /// The color's four-bit hardware code.
    pub fn code(self) -> (r: u8)
        ensures
            r == spec_color_code(self),
    {
        match self {
            Color::Black => 0,
            Color::Blue => 1,
            Color::Green => 2,
            Color::Cyan => 3,
            Color::Red => 4,
            Color::Magenta => 5,
            Color::Brown => 6,
            Color::LightGray => 7,
            Color::DarkGray => 8,
            Color::LightBlue => 9,
            Color::LightGreen => 10,
            Color::LightCyan => 11,
            Color::LightRed => 12,
            Color::Pink => 13,
            Color::Yellow => 14,
            Color::White => 15,
        }
    }
}

/// The color's four-bit hardware code.
pub open spec fn spec_color_code(c: Color) -> u8 {
    match c {
        Color::Black => 0,
        Color::Blue => 1,
        Color::Green => 2,
        Color::Cyan => 3,
        Color::Red => 4,
        Color::Magenta => 5,
        Color::Brown => 6,
        Color::LightGray => 7,
        Color::DarkGray => 8,
        Color::LightBlue => 9,
        Color::LightGreen => 10,
        Color::LightCyan => 11,
        Color::LightRed => 12,
        Color::Pink => 13,
        Color::Yellow => 14,
        Color::White => 15,
    }
}

/// A foreground and background pair packed the way the hardware reads it:
/// background in the high four bits.
#[derive(Clone, Copy, PartialEq, Eq, Structural, Debug)]
pub struct ColorCode {
    pub code: u8,
}

impl ColorCode {
    /// Pack a foreground and background color.
    pub fn new(foreground: Color, background: Color) -> (r: ColorCode)
        ensures
            r.code == spec_color_code(background) * 16 + spec_color_code(foreground),
    {
        ColorCode { code: background.code() * 16 + foreground.code() }
    }
}

/// One cell of the grid: a byte of text and its colors.
#[derive(Clone, Copy, PartialEq, Eq, Structural, Debug)]
pub struct ScreenChar {
    pub ascii_character: u8,
    pub color_code: ColorCode,
}

/// The console writer: the cursor column on the bottom row, the colors
/// new text is written in, and the grid contents.
pub struct Writer {
    pub column_position: usize,
    pub color_code: ColorCode,
    pub buffer: Vec<Vec<ScreenChar>>,
}

/// A blank row in the given colors.
pub open spec fn spec_blank_row(color: ColorCode) -> Seq<ScreenChar> {
    Seq::new(
        BUFFER_WIDTH as nat,
        |c: int| ScreenChar { ascii_character: 32, color_code: color },
    )
}

/// The grid after a scroll: every row one up, the bottom row blanked.
pub open spec fn spec_scrolled(rows: Seq<Seq<ScreenChar>>, color: ColorCode) -> Seq<
    Seq<ScreenChar>,
> {
    Seq::new(
        BUFFER_HEIGHT as nat,
        |r: int|
            if r < BUFFER_HEIGHT - 1 {
                rows[r + 1]
            } else {
                spec_blank_row(color)
            },
    )
}

/// The grid and cursor after one byte: a line feed scrolls; any other
/// byte lands on the bottom row (after a scroll when the row is full) and
/// the cursor moves right.
pub open spec fn spec_after_byte(
    rows: Seq<Seq<ScreenChar>>,
    column: int,
    color: ColorCode,
    byte: u8,
) -> (Seq<Seq<ScreenChar>>, int) {
    if byte == 10 {
        (spec_scrolled(rows, color), 0int)
    } else {
        let base = if column >= BUFFER_WIDTH {
            spec_scrolled(rows, color)
        } else {
            rows
        };
        let col = if column >= BUFFER_WIDTH {
            0int
        } else {
            column
        };
        (
            base.update(
                BUFFER_HEIGHT - 1,
                base[BUFFER_HEIGHT - 1].update(
                    col,
                    ScreenChar { ascii_character: byte, color_code: color },
                ),
            ),
            col + 1,
        )
    }
}

/// The byte a string byte prints as: printable bytes and the line feed go
/// through, anything else prints the replacement glyph.
pub open spec fn spec_printed(b: u8) -> u8 {
    if (0x20 <= b <= 0x7e) || b == 10 {
        b
    } else {
        0xfe
    }
}

/// The grid and cursor after a whole string, byte by byte.
pub open spec fn spec_after_string(
    rows: Seq<Seq<ScreenChar>>,
    column: int,
    color: ColorCode,
    s: Seq<u8>,
) -> (Seq<Seq<ScreenChar>>, int)
    decreases s.len(),
{
    if s.len() == 0 {
        (rows, column)
    } else {
        let step = spec_after_byte(rows, column, color, spec_printed(s[0]));
        spec_after_string(step.0, step.1, color, s.drop_first())
    }
}

proof fn lemma_after_string_push(
    rows: Seq<Seq<ScreenChar>>,
    column: int,
    color: ColorCode,
    s: Seq<u8>,
    b: u8,
)
    ensures
        spec_after_string(rows, column, color, s.push(b)) == ({
            let mid = spec_after_string(rows, column, color, s);
            spec_after_byte(mid.0, mid.1, color, spec_printed(b))
        }),
    decreases s.len(),
{
    if s.len() == 0 {
        assert(s.push(b).len() == 1);
        assert(s.push(b)[0] == b);
        assert(s.push(b).drop_first() =~= Seq::<u8>::empty());
        let step = spec_after_byte(rows, column, color, spec_printed(b));
        assert(spec_after_string(step.0, step.1, color, Seq::<u8>::empty()).0 == step.0);
        assert(spec_after_string(rows, column, color, s.push(b)).0 == step.0);
        assert(spec_after_string(rows, column, color, s.push(b)).1 == step.1);
        assert(spec_after_string(rows, column, color, s) == (rows, column));
    } else {
        assert(s.push(b)[0] == s[0]);
        assert(s.push(b).drop_first() =~= s.drop_first().push(b));
        let step = spec_after_byte(rows, column, color, spec_printed(s[0]));
        lemma_after_string_push(step.0, step.1, color, s.drop_first(), b);
        assert(spec_after_string(rows, column, color, s.push(b)) == spec_after_string(
            step.0,
            step.1,
            color,
            s.drop_first().push(b),
        ));
        assert(spec_after_string(rows, column, color, s) == spec_after_string(
            step.0,
            step.1,
            color,
            s.drop_first(),
        ));
    }
}

impl Writer {
    /// The grid as plain rows.
    pub open spec fn spec_rows(self) -> Seq<Seq<ScreenChar>> {
        self.buffer@.map_values(|row: Vec<ScreenChar>| row@)
    }

    /// The grid has its fixed shape and the cursor is on it.
    pub open spec fn wf(self) -> bool {
        &&& self.buffer@.len() == BUFFER_HEIGHT
        &&& forall|r: int|
            0 <= r < BUFFER_HEIGHT ==> (#[trigger] self.buffer@[r])@.len() == BUFFER_WIDTH
        &&& self.column_position <= BUFFER_WIDTH
    }

    /// A writer over a blank grid, cursor at the left edge.
    pub fn new(color_code: ColorCode) -> (r: Self)
        ensures
            r.wf(),
            r.column_position == 0,
            r.color_code == color_code,
    {
        let blank = ScreenChar { ascii_character: 32, color_code };
        let mut buffer: Vec<Vec<ScreenChar>> = Vec::new();
        let mut row: usize = 0;
        while row < BUFFER_HEIGHT
            invariant
                row <= BUFFER_HEIGHT,
                buffer@.len() == row,
                forall|r: int| 0 <= r < row ==> (#[trigger] buffer@[r])@.len() == BUFFER_WIDTH,
            decreases BUFFER_HEIGHT - row,
        {
            let mut line: Vec<ScreenChar> = Vec::new();
            let mut col: usize = 0;
            while col < BUFFER_WIDTH
                invariant
                    col <= BUFFER_WIDTH,
                    line@.len() == col,
                decreases BUFFER_WIDTH - col,
            {
                line.push(blank);
                col = col + 1;
            }
            buffer.push(line);
            row = row + 1;
        }
        Writer { column_position: 0, color_code, buffer }
    }

    /// Write one byte at the cursor: a line feed scrolls; any other byte
    /// lands on the bottom row (after a scroll if the row is full) in the
    /// current colors, and the cursor moves right.
    pub fn write_byte(&mut self, byte: u8)
        requires
            old(self).wf(),
        ensures
            final(self).wf(),
            final(self).color_code == old(self).color_code,
            (final(self).spec_rows(), final(self).column_position as int) == spec_after_byte(
                old(self).spec_rows(),
                old(self).column_position as int,
                old(self).color_code,
                byte,
            ),
    {
        if byte == 10 {
            self.new_line();
        } else {
            if self.column_position >= BUFFER_WIDTH {
                self.new_line();
            }
            let ghost mid = *self;
            let row = BUFFER_HEIGHT - 1;
            let col = self.column_position;
            let color_code = self.color_code;
            self.buffer[row][col] = ScreenChar { ascii_character: byte, color_code };
            self.column_position = self.column_position + 1;
            proof {
                let sc = ScreenChar { ascii_character: byte, color_code: old(self).color_code };
                assert(self.buffer@[BUFFER_HEIGHT - 1]@ == mid.buffer@[BUFFER_HEIGHT - 1]@.update(
                    col as int,
                    sc,
                ));
                assert forall|r: int| 0 <= r < BUFFER_HEIGHT implies #[trigger] self.spec_rows()[r]
                    == mid.spec_rows().update(
                    BUFFER_HEIGHT - 1,
                    mid.spec_rows()[BUFFER_HEIGHT - 1].update(col as int, sc),
                )[r] by {
                    assert(self.spec_rows()[r] == self.buffer@[r]@);
                    assert(mid.spec_rows()[r] == mid.buffer@[r]@);
                    if r < BUFFER_HEIGHT - 1 {
                        assert(self.buffer@[r] == mid.buffer@[r]);
                    }
                }
                assert(self.spec_rows() =~= mid.spec_rows().update(
                    BUFFER_HEIGHT - 1,
                    mid.spec_rows()[BUFFER_HEIGHT - 1].update(col as int, sc),
                ));
                if old(self).column_position >= BUFFER_WIDTH {
                    assert(mid.spec_rows() == spec_scrolled(
                        old(self).spec_rows(),
                        old(self).color_code,
                    ));
                } else {
                    assert(mid.spec_rows() =~= old(self).spec_rows());
                }
            }
        }
    }

    /// Scroll: every row moves one up, the bottom row is blanked, and the
    /// cursor returns to the left edge.
    pub fn new_line(&mut self)
        requires
            old(self).wf(),
        ensures
            final(self).wf(),
            final(self).column_position == 0,
            final(self).color_code == old(self).color_code,
            final(self).spec_rows() == spec_scrolled(
                old(self).spec_rows(),
                old(self).color_code,
            ),
    {
        let mut row: usize = 1;
        while row < BUFFER_HEIGHT
            invariant
                1 <= row <= BUFFER_HEIGHT,
                self.buffer@.len() == BUFFER_HEIGHT,
                self.color_code == old(self).color_code,
                self.column_position == old(self).column_position,
                forall|r: int|
                    0 <= r < BUFFER_HEIGHT ==> (#[trigger] self.buffer@[r])@.len() == BUFFER_WIDTH,
                forall|r: int|
                    0 <= r < row - 1 ==> #[trigger] self.buffer@[r]@ == old(self).buffer@[r + 1]@,
                forall|r: int|
                    row - 1 <= r < BUFFER_HEIGHT ==> #[trigger] self.buffer@[r]@ == old(
                        self,
                    ).buffer@[r]@,
            decreases BUFFER_HEIGHT - row,
        {
            let character = self.buffer[row][0];
            let mut col: usize = 0;
            while col < BUFFER_WIDTH
                invariant
                    col <= BUFFER_WIDTH,
                    1 <= row < BUFFER_HEIGHT,
                    self.buffer@.len() == BUFFER_HEIGHT,
                    self.color_code == old(self).color_code,
                    self.column_position == old(self).column_position,
                    forall|r: int|
                        0 <= r < BUFFER_HEIGHT ==> (#[trigger] self.buffer@[r])@.len()
                            == BUFFER_WIDTH,
                    forall|r: int|
                        0 <= r < row - 1 ==> #[trigger] self.buffer@[r]@ == old(self).buffer@[r
                            + 1]@,
                    forall|r: int|
                        row <= r < BUFFER_HEIGHT ==> #[trigger] self.buffer@[r]@ == old(
                            self,
                        ).buffer@[r]@,
                    forall|c: int|
                        0 <= c < col ==> #[trigger] self.buffer@[row - 1]@[c] == old(
                            self,
                        ).buffer@[row as int]@[c],
                    forall|c: int|
                        col <= c < BUFFER_WIDTH ==> #[trigger] self.buffer@[row - 1]@[c] == old(
                            self,
                        ).buffer@[row - 1]@[c],
                decreases BUFFER_WIDTH - col,
            {
                let ch = self.buffer[row][col];
                self.buffer[row - 1][col] = ch;
                col = col + 1;
            }
            proof {
                assert(self.buffer@[row - 1]@ =~= old(self).buffer@[row as int]@);
            }
            row = row + 1;
        }
        self.clear_row(BUFFER_HEIGHT - 1);
        self.column_position = 0;
        proof {
            assert forall|r: int| 0 <= r < BUFFER_HEIGHT implies #[trigger] self.spec_rows()[r]
                =~= spec_scrolled(old(self).spec_rows(), old(self).color_code)[r] by {
                assert(self.spec_rows()[r] == self.buffer@[r]@);
                if r < BUFFER_HEIGHT - 1 {
                    assert(self.buffer@[r]@ == old(self).buffer@[r + 1]@);
                    assert(old(self).spec_rows()[r + 1] == old(self).buffer@[r + 1]@);
                } else {
                    assert forall|c: int| 0 <= c < BUFFER_WIDTH implies self.buffer@[r]@[c]
                        == spec_blank_row(old(self).color_code)[c] by {}
                    assert(self.buffer@[r]@ =~= spec_blank_row(old(self).color_code));
                }
            }
            assert(self.spec_rows() =~= spec_scrolled(
                old(self).spec_rows(),
                old(self).color_code,
            ));
        }
    }

    /// Blank one row in the current colors.
    pub fn clear_row(&mut self, row: usize)
        requires
            old(self).wf(),
            row < BUFFER_HEIGHT,
        ensures
            final(self).wf(),
            final(self).column_position == old(self).column_position,
            final(self).color_code == old(self).color_code,
            forall|r: int|
                0 <= r < BUFFER_HEIGHT && r != row ==> #[trigger] final(self).buffer@[r]@ == old(
                    self,
                ).buffer@[r]@,
            forall|c: int|
                0 <= c < BUFFER_WIDTH ==> #[trigger] final(self).buffer@[row as int]@[c]
                    == (ScreenChar {
                    ascii_character: 32,
                    color_code: old(self).color_code,
                }),
    {
        let blank = ScreenChar { ascii_character: 32, color_code: self.color_code };
        let mut col: usize = 0;
        while col < BUFFER_WIDTH
            invariant
                col <= BUFFER_WIDTH,
                row < BUFFER_HEIGHT,
                self.buffer@.len() == BUFFER_HEIGHT,
                self.color_code == old(self).color_code,
                self.column_position == old(self).column_position,
                blank == (ScreenChar { ascii_character: 32u8, color_code: old(self).color_code }),
                forall|r: int|
                    0 <= r < BUFFER_HEIGHT ==> (#[trigger] self.buffer@[r])@.len() == BUFFER_WIDTH,
                forall|r: int|
                    0 <= r < BUFFER_HEIGHT && r != row ==> #[trigger] self.buffer@[r]@ == old(
                        self,
                    ).buffer@[r]@,
                forall|c: int| 0 <= c < col ==> #[trigger] self.buffer@[row as int]@[c] == blank,
            decreases BUFFER_WIDTH - col,
        {
            self.buffer[row][col] = blank;
            col = col + 1;
        }
    }

    /// Change the colors new text is written in.
    pub fn set_color(&mut self, color_code: ColorCode)
        requires
            old(self).wf(),
        ensures
            final(self).wf(),
            final(self).color_code == color_code,
            final(self).column_position == old(self).column_position,
            final(self).buffer@ == old(self).buffer@,
    {
        self.color_code = color_code;
    }

    /// Write a string byte by byte: printable bytes and line feeds go
    /// through as they are, anything else prints the replacement glyph.
    pub fn write_string(&mut self, s: &str)
        requires
            old(self).wf(),
        ensures
            final(self).wf(),
            final(self).color_code == old(self).color_code,
            (final(self).spec_rows(), final(self).column_position as int) == spec_after_string(
                old(self).spec_rows(),
                old(self).column_position as int,
                old(self).color_code,
                s.spec_bytes(),
            ),
    {
        let bytes = s.as_bytes();
        let mut k: usize = 0;
        while k < bytes.len()
            invariant
                k <= bytes@.len(),
                bytes@ == s.spec_bytes(),
                self.wf(),
                self.color_code == old(self).color_code,
                (self.spec_rows(), self.column_position as int) == spec_after_string(
                    old(self).spec_rows(),
                    old(self).column_position as int,
                    old(self).color_code,
                    bytes@.take(k as int),
                ),
            decreases bytes@.len() - k,
        {
            let byte = bytes[k];
            proof {
                assert(bytes@.take(k as int + 1) =~= bytes@.take(k as int).push(
                    bytes@[k as int],
                ));
                lemma_after_string_push(
                    old(self).spec_rows(),
                    old(self).column_position as int,
                    old(self).color_code,
                    bytes@.take(k as int),
                    bytes@[k as int],
                );
            }
            if (0x20 <= byte && byte <= 0x7e) || byte == 10 {
                proof {
                    assert(spec_printed(byte) == byte);
                }
                self.write_byte(byte);
            } else {
                proof {
                    assert(spec_printed(byte) == 0xfe);
                }
                self.write_byte(0xfe);
            }
            k = k + 1;
        }
        proof {
            assert(bytes@.take(bytes@.len() as int) =~= bytes@);
        }
    }
}

} // verus!
