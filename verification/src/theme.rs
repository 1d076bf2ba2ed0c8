//! Presentation themes: margins, alignments, and the order in which themes that extend
//! other themes are resolved.
use crate::style::Colors;
use vstd::prelude::*;

verus! {

/// A margin.
#[derive(Clone, Copy, Debug, PartialEq, Eq, Structural)]
pub enum Margin {
    /// A fixed number of characters.
    Fixed(u16),
    /// A percent of the screen size.
    Percent(u16),
}

/// A percent of a screen size, rounded up and capped at `u16::MAX`.
pub open spec fn percent_of(screen_size: u16, percent: u16) -> u16 {
    let exact = (screen_size as int * percent as int + 99) / 100;
    if exact > u16::MAX as int {
        u16::MAX
    } else {
        exact as u16
    }
}

impl Margin {
    /// The number of characters this margin takes on a screen of the given size.
    pub open spec fn characters(self, screen_size: u16) -> u16 {
        match self {
            Margin::Fixed(value) => value,
            Margin::Percent(percent) => percent_of(screen_size, percent),
        }
    }

    /// The number of characters this margin takes on a screen of the given size.
    pub fn as_characters(&self, screen_size: u16) -> (r: u16)
        ensures
            r == self.characters(screen_size),
    {
        match *self {
            Margin::Fixed(value) => value,
            Margin::Percent(percent) => {
                proof {
                    crate::properties::lemma_mul_u16_bound(screen_size, percent);
                }
                let exact: u64 = (screen_size as u64 * percent as u64 + 99) / 100;
                if exact > u16::MAX as u64 {
                    u16::MAX
                } else {
                    exact as u16
                }
            },
        }
    }

    /// Whether this margin is empty.
    pub fn is_empty(&self) -> (b: bool)
        ensures
            b == (*self == Margin::Fixed(0) || *self == Margin::Percent(0)),
    {
        match *self {
            Margin::Fixed(v) => v == 0,
            Margin::Percent(v) => v == 0,
        }
    }
}

impl Default for Margin {
    fn default() -> (m: Self)
        ensures
            m == Margin::Fixed(0),
    {
        Margin::Fixed(0)
    }
}

/// Text alignment.
#[derive(Clone, Copy, Debug, PartialEq, Eq, Structural)]
pub enum Alignment {
    /// Left alignment, with the margin before any text.
    Left { margin: Margin },
    /// Right alignment, with the margin after any text.
    Right { margin: Margin },
    /// Center alignment, with a minimum margin and a minimum size in columns.
    Center { minimum_margin: Margin, minimum_size: u16 },
}

impl Default for Alignment {
    fn default() -> (a: Self)
        ensures
            a == (Alignment::Left { margin: Margin::Fixed(0) }),
    {
        Alignment::Left { margin: Margin::Fixed(0) }
    }
}

/// A presentation theme: what the library reads of it.
#[derive(Clone, Debug)]
pub struct PresentationTheme {
    /// The theme this theme extends from.
    pub extends: Option<String>,
    /// The colors of slides.
    pub default_colors: Colors,
    /// The margin on both sides of slides.
    pub default_margin: Margin,
    /// How paragraphs are aligned.
    pub paragraph_alignment: Alignment,
    /// The padding around code blocks.
    pub code_padding: PaddingRect,
    /// The rows the footer takes.
    pub footer_height: u16,
}

/// Vertical and horizontal padding.
#[derive(Clone, Copy, Debug, PartialEq, Eq, Structural)]
pub struct PaddingRect {
    /// The number of columns to use as horizontal padding.
    pub horizontal: Option<u8>,
    /// The number of rows to use as vertical padding.
    pub vertical: Option<u8>,
}

impl Default for PaddingRect {
    fn default() -> (p: Self)
        ensures
            p.horizontal is None,
            p.vertical is None,
    {
        PaddingRect { horizontal: None, vertical: None }
    }
}

} // verus!
