//! The size of the terminal window and the cursor position.
use vstd::prelude::*;

verus! {

/// The size of the terminal window, in cells and in pixels.
#[derive(Clone, Copy, Debug, PartialEq, Eq, Structural)]
pub struct WindowSize {
    pub rows: u16,
    pub columns: u16,
    pub height: u16,
    pub width: u16,
}

/// The number of pixels that `amount` cells take when `cells` cells take `pixels` pixels,
/// rounded down and capped at `u16::MAX`. With no cells, nothing is shrunk unless both the
/// pixel count and the amount are non zero, in which case everything is.
pub open spec fn pixels_for_cells(pixels: u16, cells: u16, amount: u16) -> u16 {
    if cells == 0 {
        if pixels == 0 || amount == 0 {
            0
        } else {
            u16::MAX
        }
    } else {
        let exact = (pixels as int * amount as int) / cells as int;
        if exact > u16::MAX as int {
            u16::MAX
        } else {
            exact as u16
        }
    }
}

fn pixels_for_cells_exec(pixels: u16, cells: u16, amount: u16) -> (r: u16)
    ensures
        r == pixels_for_cells(pixels, cells, amount),
{
    if cells == 0 {
        if pixels == 0 || amount == 0 {
            0
        } else {
            u16::MAX
        }
    } else {
        proof {
            lemma_mul_u16_bound(pixels, amount);
        }
        let product: u64 = pixels as u64 * amount as u64;
        let exact: u64 = product / cells as u64;
        if exact > u16::MAX as u64 {
            u16::MAX
        } else {
            exact as u16
        }
    }
}

/// `a - b`, or 0 when `b` is larger.
pub open spec fn sat_sub(a: u16, b: u16) -> u16 {
    if a >= b {
        (a - b) as u16
    } else {
        0
    }
}

/// `a + b`, or `u16::MAX` when that overflows.
pub open spec fn sat_add(a: u16, b: u16) -> u16 {
    if a as int + b as int > u16::MAX as int {
        u16::MAX
    } else {
        (a + b) as u16
    }
}

/// `a * b`, or `u16::MAX` when that overflows.
pub open spec fn sat_mul(a: u16, b: u16) -> u16 {
    if a as int * b as int > u16::MAX as int {
        u16::MAX
    } else {
        (a * b) as u16
    }
}

/// `2 * a`, or `u16::MAX` when that overflows.
pub open spec fn sat_double(a: u16) -> u16 {
    if 2 * a as int > u16::MAX as int {
        u16::MAX
    } else {
        (2 * a) as u16
    }
}

/// `2 * a`, or `u16::MAX` when that overflows.
pub fn saturating_double(a: u16) -> (r: u16)
    ensures
        r == sat_double(a),
{
    let product: u32 = 2 * a as u32;
    if product > u16::MAX as u32 {
        u16::MAX
    } else {
        product as u16
    }
}

/// The product of two `u16` values fits in 32 bits.
pub proof fn lemma_mul_u16_bound(a: u16, b: u16)
    ensures
        0 <= a as int * b as int <= 65535 * 65535,
{
    assert(0 <= a as int * b as int <= 65535 * 65535) by (nonlinear_arith)
        requires
            a <= 65535,
            b <= 65535,
    ;
}

impl WindowSize {
    /// The window shrunk by `amount` rows, keeping the pixels per row.
    pub open spec fn shrunk_rows(self, amount: u16) -> WindowSize {
        WindowSize {
            rows: sat_sub(self.rows, amount),
            columns: self.columns,
            height: sat_sub(self.height, pixels_for_cells(self.height, self.rows, amount)),
            width: self.width,
        }
    }

    /// The window shrunk by `amount` columns, keeping the pixels per column.
    pub open spec fn shrunk_columns(self, amount: u16) -> WindowSize {
        WindowSize {
            rows: self.rows,
            columns: sat_sub(self.columns, amount),
            height: self.height,
            width: sat_sub(self.width, pixels_for_cells(self.width, self.columns, amount)),
        }
    }

    /// Shrinks a window by the given number of rows.
    ///
    /// This preserves the relationship between rows and pixels.
    pub fn shrink_rows(&self, amount: u16) -> (w: WindowSize)
        ensures
            w == self.shrunk_rows(amount),
    {
        let height_to_shrink = pixels_for_cells_exec(self.height, self.rows, amount);
        WindowSize {
            rows: self.rows.saturating_sub(amount),
            columns: self.columns,
            height: self.height.saturating_sub(height_to_shrink),
            width: self.width,
        }
    }

    /// Shrinks a window by the given number of columns.
    ///
    /// This preserves the relationship between columns and pixels.
    pub fn shrink_columns(&self, amount: u16) -> (w: WindowSize)
        ensures
            w == self.shrunk_columns(amount),
    {
        let width_to_shrink = pixels_for_cells_exec(self.width, self.columns, amount);
        WindowSize {
            rows: self.rows,
            columns: self.columns.saturating_sub(amount),
            height: self.height,
            width: self.width.saturating_sub(width_to_shrink),
        }
    }

    /// A window of the given number of columns and rows, without pixel sizes.
    pub fn from_cells(columns: u16, rows: u16) -> (w: WindowSize)
        ensures
            w == (WindowSize { columns, rows, width: 0, height: 0 }),
    {
        WindowSize { columns, rows, width: 0, height: 0 }
    }
}

/// The cursor's position.
#[derive(Clone, Copy, Debug, PartialEq, Eq, Default, Structural)]
pub struct CursorPosition {
    pub column: u16,
    pub row: u16,
}

} // verus!
