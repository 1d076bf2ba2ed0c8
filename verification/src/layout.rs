//! Horizontal placement of text according to an alignment.
use crate::properties::{sat_add, sat_double, sat_sub, saturating_double, WindowSize};
use crate::theme::{Alignment, Margin};
use vstd::prelude::*;

verus! {

/// Where a piece of text starts and how long its lines may be.
#[derive(Clone, Copy, Debug, PartialEq, Eq, Structural)]
pub struct Positioning {
    pub max_line_length: u16,
    pub start_column: u16,
}

/// Places text on a line according to an alignment.
#[derive(Clone, Copy, Debug, PartialEq, Eq)]
pub struct Layout {
    pub alignment: Alignment,
    pub start_column_offset: u16,
}

/// `actual`, unless `required` doesn't fit in the window, in which case 0.
pub open spec fn fit_to_columns_spec(columns: u16, required: u16, actual: u16) -> u16 {
    if required > columns {
        0
    } else {
        actual
    }
}

/// The larger of two numbers.
pub open spec fn max16(a: u16, b: u16) -> u16 {
    if a >= b {
        a
    } else {
        b
    }
}

/// The smaller of two numbers.
pub open spec fn min16(a: u16, b: u16) -> u16 {
    if a <= b {
        a
    } else {
        b
    }
}

/// The positioning of text of the given length in a window of `columns` columns, before the
/// start column offset is added.
pub open spec fn position_spec(alignment: Alignment, columns: u16, text_length: u16) -> Positioning {
    match alignment {
        Alignment::Left { margin } => {
            let m = margin.characters(columns);
            let m = fit_to_columns_spec(columns, sat_double(m), m);
            Positioning { max_line_length: (columns - sat_double(m)) as u16, start_column: m }
        },
        Alignment::Right { margin } => {
            let m = margin.characters(columns);
            let m = fit_to_columns_spec(columns, sat_double(m), m);
            let start = max16(sat_sub(sat_sub(columns, m), text_length), m);
            Positioning { max_line_length: ((columns - m) - start) as u16, start_column: start }
        },
        Alignment::Center { minimum_margin, minimum_size } => {
            let mm = minimum_margin.characters(columns);
            let size = min16(columns, minimum_size);
            let mm = fit_to_columns_spec(columns, sat_add(sat_double(mm), size), mm);
            let max_line = max16(min16(text_length, (columns - sat_double(mm)) as u16), size);
            let start = if max_line > columns {
                mm
            } else {
                max16(((columns - max_line) / 2) as u16, mm)
            };
            Positioning { max_line_length: max_line, start_column: start }
        },
    }
}

/// The margin in characters that an alignment asks for on a screen of `columns` columns.
pub open spec fn alignment_margin(alignment: Alignment, columns: u16) -> u16 {
    match alignment {
        Alignment::Left { margin } => margin.characters(columns),
        Alignment::Right { margin } => margin.characters(columns),
        Alignment::Center { minimum_margin, .. } => minimum_margin.characters(columns),
    }
}

/// Whether the margins that an alignment asks for, twice the margin plus the minimum size for
/// centered text, fit in a `u16` without saturating.
pub open spec fn margins_fit_u16(alignment: Alignment, columns: u16) -> bool {
    match alignment {
        Alignment::Center { minimum_margin, minimum_size } => 2 * minimum_margin.characters(
            columns,
        ) as int + min16(columns, minimum_size) as int <= u16::MAX as int,
        _ => 2 * alignment_margin(alignment, columns) as int <= u16::MAX as int,
    }
}

/// The inputs on which placing right aligned text underflows: a margin on each side that
/// takes more than the whole screen, yet passes the fit check because twice the margin
/// saturates at `u16::MAX`.
pub open spec fn right_margin_underflows(alignment: Alignment, columns: u16) -> bool {
    match alignment {
        Alignment::Right { margin } => {
            let m = margin.characters(columns);
            sat_double(m) <= columns && 2 * m as int > columns as int
        },
        _ => false,
    }
}

impl Layout {
    /// A layout with the given alignment.
    pub fn new(alignment: Alignment) -> (l: Self)
        ensures
            l == (Layout { alignment, start_column_offset: 0 }),
    {
        Layout { alignment, start_column_offset: 0 }
    }

    /// Shifts the computed start column by `column`.
    pub fn with_start_column(self, column: u16) -> (l: Self)
        ensures
            l == (Layout { start_column_offset: column, ..self }),
    {
        Layout { start_column_offset: column, ..self }
    }

    /// The positioning of text of the given length.
    pub open spec fn compute_spec(self, dimensions: WindowSize, text_length: u16) -> Positioning {
        let p = position_spec(self.alignment, dimensions.columns, text_length);
        Positioning {
            max_line_length: p.max_line_length,
            start_column: (p.start_column + self.start_column_offset) as u16,
        }
    }

    /// Computes where text of the given length starts and how long its lines may be.
    pub fn compute(&self, dimensions: &WindowSize, text_length: u16) -> (p: Positioning)
        requires
            self.start_column_offset as int + dimensions.columns as int <= u16::MAX as int,
            !right_margin_underflows(self.alignment, dimensions.columns),
        ensures
            p == self.compute_spec(*dimensions, text_length),
            p.start_column <= self.start_column_offset + dimensions.columns,
            position_spec(self.alignment, dimensions.columns, text_length).start_column
                <= dimensions.columns,
    {
        let columns = dimensions.columns;
        let max_line_length;
        let mut start_column;
        match self.alignment {
            Alignment::Left { margin } => {
                let margin = margin.as_characters(columns);
                let margin = Self::fit_to_columns(dimensions, saturating_double(margin), margin);
                start_column = margin;
                max_line_length = columns - saturating_double(margin);
            },
            Alignment::Right { margin } => {
                let margin = margin.as_characters(columns);
                let margin = Self::fit_to_columns(dimensions, saturating_double(margin), margin);
                let candidate = columns.saturating_sub(margin).saturating_sub(text_length);
                start_column = if candidate >= margin { candidate } else { margin };
                max_line_length = (columns - margin) - start_column;
            },
            Alignment::Center { minimum_margin, minimum_size } => {
                let minimum_margin = minimum_margin.as_characters(columns);
                let minimum_size = if columns <= minimum_size { columns } else { minimum_size };
                let minimum_margin = Self::fit_to_columns(
                    dimensions,
                    saturating_double(minimum_margin).saturating_add(minimum_size),
                    minimum_margin,
                );
                let available = columns - saturating_double(minimum_margin);
                let shortest = if text_length <= available { text_length } else { available };
                max_line_length = if shortest >= minimum_size { shortest } else { minimum_size };
                if max_line_length > columns {
                    start_column = minimum_margin;
                } else {
                    start_column = (columns - max_line_length) / 2;
                    if start_column < minimum_margin {
                        start_column = minimum_margin;
                    }
                }
            },
        };
        start_column = start_column + self.start_column_offset;
        Positioning { max_line_length, start_column }
    }

    /// `actual_fit`, unless `required_fit` doesn't fit in the window, in which case 0.
    pub fn fit_to_columns(dimensions: &WindowSize, required_fit: u16, actual_fit: u16) -> (r: u16)
        ensures
            r == fit_to_columns_spec(dimensions.columns, required_fit, actual_fit),
    {
        if required_fit > dimensions.columns {
            0
        } else {
            actual_fit
        }
    }
}

/// Left aligned text keeps its margin on both sides; right aligned text ends exactly its
/// margin before the window's right edge, taking as many columns as it has up to what the two
/// margins leave. A margin that doesn't fit twice in the window is dropped.
pub proof fn lemma_left_and_right_text(margin: Margin, columns: u16, text_length: u16)
    ensures
        ({
            let m = margin.characters(columns);
            let p = position_spec(Alignment::Left { margin }, columns, text_length);
            &&& 2 * m as int <= columns ==> p.start_column == m && p.max_line_length == columns - 2 * m
            &&& sat_double(m) > columns ==> p.start_column == 0 && p.max_line_length == columns
        }),
        ({
            let m = margin.characters(columns);
            let p = position_spec(Alignment::Right { margin }, columns, text_length);
            let room: int = columns - 2 * m;
            &&& 2 * m as int <= columns ==> {
                &&& p.start_column + p.max_line_length == columns - m
                &&& p.start_column >= m
                &&& p.max_line_length == if text_length <= room { text_length as int } else { room }
            }
            &&& sat_double(m) > columns ==> {
                &&& p.start_column + p.max_line_length == columns
                &&& p.max_line_length == if text_length <= columns { text_length } else { columns }
            }
        }),
{
}

/// Centered text is balanced: it never has more than one column more space on its right than
/// on its left, and it only has more space on its left than on its right to keep the minimum
/// margin; its lines fit in the window; with room for the margins, its lines are as long as
/// the text, at least the minimum size, and keep the minimum margin on both sides. (Where twice the minimum margin and the minimum size
/// don't fit in 16 bits, the margin saturates and the text can overlap it.)
pub proof fn lemma_centered_text_is_balanced(
    minimum_margin: Margin,
    minimum_size: u16,
    columns: u16,
    text_length: u16,
)
    requires
        margins_fit_u16(Alignment::Center { minimum_margin, minimum_size }, columns),
    ensures
        ({
            let p = position_spec(Alignment::Center { minimum_margin, minimum_size }, columns, text_length);
            let left = p.start_column as int;
            let right = columns as int - p.start_column as int - p.max_line_length as int;
            &&& p.max_line_length <= columns
            &&& right >= 0
            &&& right <= left + 1
            &&& left > right ==> left <= minimum_margin.characters(columns)
        }),
        ({
            let p = position_spec(Alignment::Center { minimum_margin, minimum_size }, columns, text_length);
            let m = minimum_margin.characters(columns);
            let size: int = if minimum_size <= columns { minimum_size as int } else { columns as int };
            &&& 2 * m + size <= columns ==> {
                &&& p.start_column >= m
                &&& p.start_column + p.max_line_length + m <= columns
                &&& p.max_line_length >= size
                &&& p.max_line_length <= if text_length >= size { text_length as int } else { size }
                &&& text_length + 2 * m <= columns ==> p.max_line_length >= text_length
            }
        }),
{
}

/// Whatever the alignment, text never starts past the window's last column and its lines
/// never reach past the window's right edge.
pub proof fn lemma_positioning_within_window(alignment: Alignment, columns: u16, text_length: u16)
    requires
        margins_fit_u16(alignment, columns),
    ensures
        position_spec(alignment, columns, text_length).start_column <= columns,
        position_spec(alignment, columns, text_length).max_line_length <= columns,
        position_spec(alignment, columns, text_length).start_column as int
            + position_spec(alignment, columns, text_length).max_line_length as int <= columns,
{
}

} // verus!
