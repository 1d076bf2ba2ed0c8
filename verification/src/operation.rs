//! Render operations: the steps that materialize a slide on a terminal.
use crate::style::{Color, Colors};
use crate::text::{Text, WeightedLine};
use crate::theme::{Alignment, Margin};
use vstd::prelude::*;

verus! {

/// Margins applied to the current drawing area.
#[derive(Clone, Copy, Debug, PartialEq, Eq, Structural)]
pub struct MarginProperties {
    /// The horizontal margin, on both sides.
    pub horizontal: Margin,
    /// The number of rows skipped at the top.
    pub top: u16,
    /// The number of rows left free at the bottom.
    pub bottom: u16,
}

/// A line of text drawn inside a block of a fixed width.
#[derive(Clone, Debug)]
pub struct BlockLine {
    pub prefix: Text,
    pub right_padding_length: u16,
    pub repeat_prefix_on_wrap: bool,
    pub text: WeightedLine,
    pub block_length: u16,
    pub alignment: Alignment,
    pub block_color: Option<Color>,
}

/// A render operation.
#[derive(Clone, Debug)]
pub enum RenderOperation {
    /// Clear the entire screen.
    ClearScreen,
    /// Apply margins to the drawing area.
    ApplyMargin(MarginProperties),
    /// Pop the last margin applied.
    PopMargin,
    /// Set the colors to be used for any subsequent operations.
    SetColors(Colors),
    /// Jump to the vertical center of the drawing area.
    JumpToVerticalCenter,
    /// Jump to a row, relative to the top of the drawing area.
    JumpToRow { index: u16 },
    /// Jump to a row, counted from the bottom of the drawing area.
    JumpToBottomRow { index: u16 },
    /// Jump to a column, relative to the left of the drawing area.
    JumpToColumn { index: u16 },
    /// Render a line of text.
    RenderText { line: WeightedLine, alignment: Alignment },
    /// Render a line break.
    RenderLineBreak,
    /// Render a line of text inside a block.
    RenderBlockLine(BlockLine),
    /// Split the drawing area into columns of the given relative widths.
    InitColumnLayout { columns: Vec<u8> },
    /// Move into a column of the column layout.
    EnterColumn { column: usize },
    /// Leave the column layout.
    ExitLayout,
}

} // verus!
