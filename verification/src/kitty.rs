//! Cell and pixel sizes for images shown with the kitty graphics protocol.
use vstd::prelude::*;

use crate::ansi::{split_semi, split_semicolons};
use crate::decimal::{parse_unsigned, parse_unsigned_range};
use crate::geometry::Rect;
use crate::text::{chars_of, push_str};

verus! {

/// `a / b` rounded up.
pub open spec fn ceil_div(a: nat, b: nat) -> nat {
    if a % b == 0 {
        a / b
    } else {
        a / b + 1
    }
}

proof fn lemma_ceil_fits(a: u32, b: u32)
    requires
        b > 0,
        a % b != 0,
    ensures
        a / b < u32::MAX,
{
    assert(b >= 2);
    assert(a / b <= a / 2) by (nonlinear_arith)
        requires
            b >= 2,
    ;
}

/// The pixel dimensions of a single cell in the terminal.
#[derive(Debug, Clone, Copy, PartialEq, Eq, Structural)]
pub struct CellSize {
    pub width: u32,
    pub height: u32,
}

/// The cell size assumed when the terminal does not tell it.
pub open spec fn default_cell_size() -> CellSize {
    CellSize { width: 10, height: 20 }
}

impl Default for CellSize {
    fn default() -> (c: Self)
        ensures
            c == default_cell_size(),
    {
        CellSize { width: 10, height: 20 }
    }
}

impl CellSize {
    /// The pixel width of `columns` cells.
    pub fn width(&self, columns: u16) -> (w: u32)
        requires
            columns * self.width <= u32::MAX,
        ensures
            w == columns * self.width,
    {
        columns as u32 * self.width
    }

    /// The pixel height of `rows` cells.
    pub fn height(&self, rows: u16) -> (h: u32)
        requires
            rows * self.height <= u32::MAX,
        ensures
            h == rows * self.height,
    {
        rows as u32 * self.height
    }

    /// The number of cells that `width` pixels take, rounded up, as a `u16`
    /// (cut to its low 16 bits).
    pub fn columns(&self, width: u32) -> (c: u16)
        requires
            self.width > 0,
        ensures
            c == ceil_div(width as nat, self.width as nat) as u16,
    {
        let q = width / self.width;
        let n = if width % self.width == 0 {
            q
        } else {
            proof {
                lemma_ceil_fits(width, self.width);
            }
            q + 1
        };
        #[verifier::truncate]
        (n as u16)
    }

    /// The number of cells that `height` pixels take, rounded up, as a `u16`
    /// (cut to its low 16 bits).
    pub fn rows(&self, height: u32) -> (r: u16)
        requires
            self.height > 0,
        ensures
            r == ceil_div(height as nat, self.height as nat) as u16,
    {
        let q = height / self.height;
        let n = if height % self.height == 0 {
            q
        } else {
            proof {
                lemma_ceil_fits(height, self.height);
            }
            q + 1
        };
        #[verifier::truncate]
        (n as u16)
    }

    /// The pixel dimensions of an area of cells.
    pub fn dimensions(&self, area: Rect) -> (d: Dimensions)
        requires
            area.width * self.width <= u32::MAX,
            area.height * self.height <= u32::MAX,
        ensures
            d.width == area.width * self.width,
            d.height == area.height * self.height,
    {
        Dimensions { width: self.width(area.width), height: self.height(area.height) }
    }

    /// The cells that an image of `dims` pixels takes.
    pub fn area(&self, dims: Dimensions) -> (a: Area)
        requires
            self.width > 0,
            self.height > 0,
        ensures
            a.columns == ceil_div(dims.width as nat, self.width as nat) as u16,
            a.rows == ceil_div(dims.height as nat, self.height as nat) as u16,
    {
        Area { columns: self.columns(dims.width), rows: self.rows(dims.height) }
    }
}

/// Why the cell size could not be had.
#[derive(Debug)]
pub enum CellSizeError {
    Io(String),
    Parsing(String),
}

/// The terminal's answer to the cell size query: `ESC [ 6 ; height ; width t`,
/// maybe followed by more. The text is split at `;`: the second piece is the
/// height, and the third, up to its first `t`, is the width.
pub open spec fn cell_size_answer(s: Seq<char>) -> Option<CellSize> {
    let pieces = split_semi(s);
    if pieces.len() < 3 {
        None
    } else {
        let h = parse_unsigned(pieces[1], u32::MAX as nat);
        let w_piece = pieces[2];
        let t = first_from(w_piece, 't', 0);
        if t >= w_piece.len() {
            None
        } else {
            let w = parse_unsigned(w_piece.subrange(0, t), u32::MAX as nat);
            match (h, w) {
                (Some(h), Some(w)) => Some(CellSize { width: w as u32, height: h as u32 }),
                _ => None,
            }
        }
    }
}

/// The first position of `c` in `s` at `i` or later, or the length of `s`.
pub open spec fn first_from(s: Seq<char>, c: char, i: int) -> int
    decreases s.len() - i,
{
    if i < 0 || i >= s.len() {
        s.len() as int
    } else if s[i] == c {
        i
    } else {
        first_from(s, c, i + 1)
    }
}

/// The first position of `c` in `v`, or its length.
fn first_pos(v: &Vec<char>, c: char) -> (r: usize)
    ensures
        r == first_from(v@, c, 0),
{
    let mut i: usize = 0;
    while i < v.len() && v[i] != c
        invariant
            i <= v@.len(),
            first_from(v@, c, 0) == first_from(v@, c, i as int),
        decreases v.len() - i,
    {
        i = i + 1;
    }
    i
}

/// The message for an answer that does not give the cell size.
pub open spec fn unknown_size_message(s: Seq<char>) -> Seq<char> {
    "unknown height and width from \""@ + s + "\""@
}

/// Reads the cell size from the terminal's answer to the cell size query.
pub fn parse_cell_size(s: &str) -> (r: Result<CellSize, CellSizeError>)
    ensures
        match cell_size_answer(s@) {
            Some(c) => r == Ok::<CellSize, CellSizeError>(c),
            None => r matches Err(CellSizeError::Parsing(m)) && m@ == unknown_size_message(s@),
        },
{
    let chars = chars_of(s);
    let n = chars.len();
    let pieces = split_semicolons(&chars, 0, n);
    proof {
        assert(chars@.subrange(0, n as int) =~= s@);
    }
    if pieces.len() >= 3 {
        let hp = &pieces[1];
        let wp = &pieces[2];
        proof {
            assert(hp@ == split_semi(s@)[1]);
            assert(wp@ == split_semi(s@)[2]);
            assert(hp@.subrange(0, hp@.len() as int) =~= hp@);
        }
        let h = parse_unsigned_range(hp, 0, hp.len(), 4294967295);
        let t = first_pos(wp, 't');
        if t < wp.len() {
            let w = parse_unsigned_range(wp, 0, t, 4294967295);
            if let (Some(h), Some(w)) = (h, w) {
                return Ok(CellSize { width: w as u32, height: h as u32 });
            }
        }
    }
    let mut msg = String::new();
    push_str(&mut msg, "unknown height and width from \"");
    push_str(&mut msg, s);
    push_str(&mut msg, "\"");
    Err(CellSizeError::Parsing(msg))
}

/// The cells of an image.
#[derive(Debug, Clone, Copy, PartialEq, Eq, Structural)]
pub struct Area {
    pub columns: u16,
    pub rows: u16,
}

impl Area {
    pub fn new(columns: u16, rows: u16) -> (a: Self)
        ensures
            a == (Area { columns, rows }),
    {
        Area { columns, rows }
    }

    pub fn from_rect(area: Rect) -> (a: Self)
        ensures
            a == (Area { columns: area.width, rows: area.height }),
    {
        Area::new(area.width, area.height)
    }

    pub fn with_columns(self, columns: u16) -> (a: Self)
        ensures
            a == (Area { columns, ..self }),
    {
        Area { columns, ..self }
    }

    pub fn with_rows(self, rows: u16) -> (a: Self)
        ensures
            a == (Area { rows, ..self }),
    {
        Area { rows, ..self }
    }
}

/// The pixel dimensions of an image.
#[derive(Debug, Clone, Copy, PartialEq, Eq, Structural)]
pub struct Dimensions {
    pub width: u32,
    pub height: u32,
}

impl Dimensions {
    pub fn from_tuple(wh: (u32, u32)) -> (d: Self)
        ensures
            d == (Dimensions { width: wh.0, height: wh.1 }),
    {
        Dimensions { width: wh.0, height: wh.1 }
    }

    pub fn with_width(self, width: u32) -> (d: Self)
        ensures
            d == (Dimensions { width, ..self }),
    {
        Dimensions { width, ..self }
    }

    pub fn with_height(self, height: u32) -> (d: Self)
        ensures
            d == (Dimensions { height, ..self }),
    {
        Dimensions { height, ..self }
    }
}

/// How an image is fitted into its area.
#[derive(Debug, Clone, Copy, PartialEq, Eq, Structural)]
pub enum ResizeMode {
    /// Shown at its own size.
    Unscaled,
    Fit,
    Stretch,
    FitWidthCropHeight { rows_outside_top: u16 },
}

impl Default for ResizeMode {
    fn default() -> (m: Self)
        ensures
            m == ResizeMode::Fit,
    {
        ResizeMode::Fit
    }
}

} // verus!
