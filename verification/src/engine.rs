//! The render engine: it draws render operations on a terminal, keeping track of the margins,
//! the colors and the column layout in effect.
use crate::layout::{position_spec, right_margin_underflows, Layout, Positioning};
use crate::operation::{BlockLine, MarginProperties, RenderOperation};
use crate::options::RenderError;
use crate::properties::{sat_add, sat_double, sat_sub, WindowSize};
use crate::style::{Colors, TextStyle};
use crate::text::{cap_usize, chunks_width, display_width, str_display_width, Text, WeightedLine};
use crate::text_drawer::{
    command_step, commands_do, drawer_spec, lemma_commands_concat, too_small, DrawStep, TextDrawer,
};
use crate::theme::Alignment;
use crate::virt::{track, trackable, TerminalCommand, Terminal, TerminalWrite};
use std::io::Error as IoError;
use vstd::prelude::*;

verus! {

/// Lines narrower than this are not wrapped: the text is refused as too wide.
pub const MINIMUM_LINE_LENGTH: u16 = 10;

/// Where the drawing area goes when the window is wider than the maximum.
#[derive(Clone, Copy, Debug, PartialEq, Eq, Structural)]
pub enum MaxColumnsAlignment {
    Left,
    Center,
    Right,
}

impl Default for MaxColumnsAlignment {
    fn default() -> (a: Self)
        ensures
            a == MaxColumnsAlignment::Center,
    {
        MaxColumnsAlignment::Center
    }
}

/// Where the drawing area goes when the window is taller than the maximum.
#[derive(Clone, Copy, Debug, PartialEq, Eq, Structural)]
pub enum MaxRowsAlignment {
    Top,
    Center,
    Bottom,
}

impl Default for MaxRowsAlignment {
    fn default() -> (a: Self)
        ensures
            a == MaxRowsAlignment::Center,
    {
        MaxRowsAlignment::Center
    }
}

/// The largest drawing area, and where it goes in a larger window.
#[derive(Clone, Copy, Debug, PartialEq, Eq, Structural)]
pub struct MaxSize {
    pub max_columns: u16,
    pub max_columns_alignment: MaxColumnsAlignment,
    pub max_rows: u16,
    pub max_rows_alignment: MaxRowsAlignment,
}

impl Default for MaxSize {
    fn default() -> (m: Self)
        ensures
            m == (MaxSize {
                max_columns: u16::MAX,
                max_columns_alignment: MaxColumnsAlignment::Center,
                max_rows: u16::MAX,
                max_rows_alignment: MaxRowsAlignment::Center,
            }),
    {
        MaxSize {
            max_columns: u16::MAX,
            max_columns_alignment: MaxColumnsAlignment::Center,
            max_rows: u16::MAX,
            max_rows_alignment: MaxRowsAlignment::Center,
        }
    }
}

/// How the engine renders.
#[derive(Clone, Copy, Debug, PartialEq, Eq, Structural)]
pub struct RenderEngineOptions {
    /// Whether text wider, or a slide taller, than the screen is an error.
    pub validate_overflows: bool,
    /// The largest drawing area.
    pub max_size: MaxSize,
    /// The space between the columns of a column layout.
    pub column_layout_margin: u16,
}

impl Default for RenderEngineOptions {
    fn default() -> (o: Self)
        ensures
            o == (RenderEngineOptions {
                validate_overflows: false,
                max_size: MaxSize {
                    max_columns: u16::MAX,
                    max_columns_alignment: MaxColumnsAlignment::Center,
                    max_rows: u16::MAX,
                    max_rows_alignment: MaxRowsAlignment::Center,
                },
                column_layout_margin: 4,
            }),
    {
        RenderEngineOptions {
            validate_overflows: false,
            max_size: MaxSize::default(),
            column_layout_margin: 4,
        }
    }
}

/// A part of the window: its size and where it starts.
#[derive(Clone, Copy, Debug, PartialEq, Eq, Structural)]
pub struct WindowRect {
    pub dimensions: WindowSize,
    pub start_column: u16,
    pub start_row: u16,
}

/// A rect fits when it ends within the columns a terminal can address, and the screen does not
/// take all of them.
pub open spec fn rect_fits(r: WindowRect) -> bool {
    &&& r.start_column as int + r.dimensions.columns as int <= u16::MAX as int
    &&& r.dimensions.columns < u16::MAX
}

impl WindowRect {
    /// The rect with `margin` columns taken off each side.
    pub open spec fn shrunk_horizontal(self, margin: u16) -> WindowRect {
        WindowRect {
            dimensions: self.dimensions.shrunk_columns(sat_double(margin)),
            start_column: sat_add(self.start_column, margin),
            start_row: self.start_row,
        }
    }

    /// The rect with `size` columns taken off the left.
    pub open spec fn shrunk_left(self, size: u16) -> WindowRect {
        WindowRect {
            dimensions: self.dimensions.shrunk_columns(size),
            start_column: sat_add(self.start_column, size),
            start_row: self.start_row,
        }
    }

    /// The rect with `size` columns taken off the right.
    pub open spec fn shrunk_right(self, size: u16) -> WindowRect {
        WindowRect { dimensions: self.dimensions.shrunk_columns(size), ..self }
    }

    /// The rect with `rows` rows taken off the top.
    pub open spec fn shrunk_top(self, rows: u16) -> WindowRect {
        WindowRect {
            dimensions: self.dimensions.shrunk_rows(rows),
            start_row: sat_add(self.start_row, rows),
            ..self
        }
    }

    /// The rect with `rows` rows taken off the bottom.
    pub open spec fn shrunk_bottom(self, rows: u16) -> WindowRect {
        WindowRect { dimensions: self.dimensions.shrunk_rows(rows), ..self }
    }

    /// Takes `margin` columns off each side.
    pub fn shrink_horizontal(&self, margin: u16) -> (r: WindowRect)
        ensures
            r == self.shrunk_horizontal(margin),
    {
        let dimensions = self.dimensions.shrink_columns(crate::properties::saturating_double(margin));
        WindowRect {
            dimensions,
            start_column: self.start_column.saturating_add(margin),
            start_row: self.start_row,
        }
    }

    /// Takes `size` columns off the left.
    pub fn shrink_left(&self, size: u16) -> (r: WindowRect)
        ensures
            r == self.shrunk_left(size),
    {
        let dimensions = self.dimensions.shrink_columns(size);
        WindowRect {
            dimensions,
            start_column: self.start_column.saturating_add(size),
            start_row: self.start_row,
        }
    }

    /// Takes `size` columns off the right.
    pub fn shrink_right(&self, size: u16) -> (r: WindowRect)
        ensures
            r == self.shrunk_right(size),
    {
        let dimensions = self.dimensions.shrink_columns(size);
        WindowRect { dimensions, start_column: self.start_column, start_row: self.start_row }
    }

    /// Takes `rows` rows off the top.
    pub fn shrink_top(&self, rows: u16) -> (r: WindowRect)
        ensures
            r == self.shrunk_top(rows),
    {
        let dimensions = self.dimensions.shrink_rows(rows);
        WindowRect {
            dimensions,
            start_column: self.start_column,
            start_row: self.start_row.saturating_add(rows),
        }
    }

    /// Takes `rows` rows off the bottom.
    pub fn shrink_bottom(&self, rows: u16) -> (r: WindowRect)
        ensures
            r == self.shrunk_bottom(rows),
    {
        let dimensions = self.dimensions.shrink_rows(rows);
        WindowRect { dimensions, start_column: self.start_column, start_row: self.start_row }
    }
}

/// The drawing area in a window: the window, shrunk to the maximum size and placed as the
/// options say.
pub open spec fn starting_rect_spec(window: WindowSize, options: RenderEngineOptions) -> WindowRect {
    let max = options.max_size;
    let extra_width = sat_sub(window.columns, max.max_columns);
    let dimensions = if window.columns > max.max_columns {
        window.shrunk_columns(extra_width)
    } else {
        window
    };
    let start_column: u16 = if window.columns > max.max_columns {
        match max.max_columns_alignment {
            MaxColumnsAlignment::Left => 0,
            MaxColumnsAlignment::Center => extra_width / 2,
            MaxColumnsAlignment::Right => extra_width,
        }
    } else {
        0
    };
    let extra_height = sat_sub(dimensions.rows, max.max_rows);
    let start_row: u16 = if dimensions.rows > max.max_rows {
        match max.max_rows_alignment {
            MaxRowsAlignment::Top => 0,
            MaxRowsAlignment::Center => extra_height / 2,
            MaxRowsAlignment::Bottom => extra_height,
        }
    } else {
        0
    };
    let dimensions = if dimensions.rows > max.max_rows {
        dimensions.shrunk_rows(extra_height)
    } else {
        dimensions
    };
    WindowRect { dimensions, start_column, start_row }
}

/// The drawing area in a window.
pub fn starting_rect(window: WindowSize, options: &RenderEngineOptions) -> (r: WindowRect)
    ensures
        r == starting_rect_spec(window, *options),
        r.start_column as int + r.dimensions.columns as int <= u16::MAX as int,
        window.columns < u16::MAX ==> rect_fits(r),
{
    let max = options.max_size;
    let mut dimensions = window;
    let mut start_column: u16 = 0;
    let mut start_row: u16 = 0;
    if dimensions.columns > max.max_columns {
        let extra_width = dimensions.columns - max.max_columns;
        dimensions = dimensions.shrink_columns(extra_width);
        start_column = match max.max_columns_alignment {
            MaxColumnsAlignment::Left => 0,
            MaxColumnsAlignment::Center => extra_width / 2,
            MaxColumnsAlignment::Right => extra_width,
        };
    }
    if dimensions.rows > max.max_rows {
        let extra_height = dimensions.rows - max.max_rows;
        dimensions = dimensions.shrink_rows(extra_height);
        start_row = match max.max_rows_alignment {
            MaxRowsAlignment::Top => 0,
            MaxRowsAlignment::Center => extra_height / 2,
            MaxRowsAlignment::Bottom => extra_height,
        };
    }
    WindowRect { dimensions, start_column, start_row }
}

/// A column of a column layout: its width in units and the row drawing in it got to.
#[derive(Clone, Copy, Debug, PartialEq, Eq, Structural)]
pub struct Column {
    pub width: u16,
    pub current_row: u16,
}

/// The column layout in effect.
#[derive(Debug)]
pub enum LayoutState {
    Default,
    InitializedColumn { columns: Vec<Column> },
    EnteredColumn { column: usize, columns: Vec<Column> },
}

/// The column layout in effect, as plain values.
pub enum LayoutView {
    Default,
    Initialized(Seq<Column>),
    Entered(usize, Seq<Column>),
}

/// The view of a column layout.
pub open spec fn layout_view(l: LayoutState) -> LayoutView {
    match l {
        LayoutState::Default => LayoutView::Default,
        LayoutState::InitializedColumn { columns } => LayoutView::Initialized(columns@),
        LayoutState::EnteredColumn { column, columns } => LayoutView::Entered(column, columns@),
    }
}

/// Where commands go: a terminal that knows which row its cursor is in.
pub trait TerminalIo {
    /// The row the cursor is in.
    spec fn row(&self) -> u16;

    /// Runs a command.
    fn execute(&mut self, command: &TerminalCommand) -> Result<(), IoError>;

    /// The row the cursor is in.
    fn cursor_row(&self) -> (r: u16)
        ensures
            r == self.row(),
    ;
}

/// An error for a command that would move the cursor past the last row a terminal can address.
///
/// Calls `std::io::Error::other`; nothing is claimed of the error.
#[verifier::external_body]
fn row_out_of_range() -> IoError {
    IoError::other("the cursor cannot move past the last row")
}

impl<I: TerminalWrite> TerminalIo for Terminal<I> {
    open spec fn row(&self) -> u16 {
        self.cursor_state().cursor_row
    }

    /// Sends a command; one that would move the cursor past the last row fails, and is not
    /// sent. A failed command leaves the cursor where it was; a sent one moves it as `track`
    /// says.
    fn execute(&mut self, command: &TerminalCommand) -> (r: Result<(), IoError>)
        ensures
            !trackable(old(self).cursor_state(), *command) ==> r is Err,
            r is Ok ==> final(self).cursor_state() == track(old(self).cursor_state(), *command),
            r is Err ==> final(self).cursor_state() == old(self).cursor_state(),
    {
        if !self.can_track(command) {
            return Err(row_out_of_range());
        }
        Terminal::execute(self, command)
    }

    fn cursor_row(&self) -> (r: u16) {
        Terminal::cursor_row(self)
    }
}

/// What the engine keeps between operations.
pub struct EngineState {
    /// The margins applied, the whole drawing area first.
    pub rects: Seq<WindowRect>,
    /// The colors in effect.
    pub colors: Colors,
    /// The lowest row drawn on.
    pub max_modified_row: u16,
    /// The column layout.
    pub layout: LayoutView,
}

/// Why an operation could not be rendered, as plain values.
pub enum RenderFailure {
    TerminalTooSmall,
    InvalidLayoutEnter,
    PopDefaultScreen,
    HorizontalOverflow,
    VerticalOverflow,
}

/// The failure that a rendering error reports, if it is not an input or output error.
pub open spec fn failure_of(e: RenderError) -> Option<RenderFailure> {
    match e {
        RenderError::TerminalTooSmall => Some(RenderFailure::TerminalTooSmall),
        RenderError::InvalidLayoutEnter => Some(RenderFailure::InvalidLayoutEnter),
        RenderError::PopDefaultScreen => Some(RenderFailure::PopDefaultScreen),
        RenderError::HorizontalOverflow => Some(RenderFailure::HorizontalOverflow),
        RenderError::VerticalOverflow => Some(RenderFailure::VerticalOverflow),
        _ => None,
    }
}

/// The total width of some columns, in units.
pub open spec fn widths_total(columns: Seq<Column>) -> nat
    decreases columns.len(),
{
    if columns.len() == 0 {
        0
    } else {
        widths_total(columns.drop_last()) + columns.last().width as nat
    }
}

/// The total of some column widths.
pub open spec fn u8_total(widths: Seq<u8>) -> nat
    decreases widths.len(),
{
    if widths.len() == 0 {
        0
    } else {
        u8_total(widths.drop_last()) + widths.last() as nat
    }
}

/// Whether the engine's state holds together: there is a drawing area, every rect fits, and a
/// column layout's widths add up to a `u16`.
pub open spec fn state_wf(s: EngineState) -> bool {
    &&& s.rects.len() >= 1
    &&& forall|i: int| 0 <= i < s.rects.len() ==> rect_fits(#[trigger] s.rects[i])
    &&& match s.layout {
        LayoutView::Default => true,
        LayoutView::Initialized(columns) => widths_total(columns) <= u16::MAX,
        LayoutView::Entered(column, columns) => widths_total(columns) <= u16::MAX && column
            < columns.len(),
    }
}

/// Whether an operation can be rendered: the lines it draws have a positive font size, and
/// a column layout's widths add up to a `u16`.
pub open spec fn operation_renderable(op: RenderOperation) -> bool {
    match op {
        RenderOperation::RenderText { line, .. } => line.font_size_spec() >= 1,
        RenderOperation::RenderBlockLine(block) => block.text.font_size_spec() >= 1,
        RenderOperation::InitColumnLayout { columns } => u8_total(columns@) <= u16::MAX,
        _ => true,
    }
}

/// Whether an operation can be rendered.
pub fn is_renderable(op: &RenderOperation) -> (b: bool)
    ensures
        b == operation_renderable(*op),
{
    match op {
        RenderOperation::RenderText { line, .. } => line.font_size() >= 1,
        RenderOperation::RenderBlockLine(block) => block.text.font_size() >= 1,
        RenderOperation::InitColumnLayout { columns } => {
            let mut total: u32 = 0;
            let mut i: usize = 0;
            while i < columns.len()
                invariant
                    i <= columns@.len(),
                    *op matches RenderOperation::InitColumnLayout { columns: c } && c@ == columns@,
                    total as nat == u8_total(columns@.take(i as int)),
                    total <= 65535,
                decreases columns@.len() - i,
            {
                proof {
                    assert(columns@.take(i + 1).drop_last() =~= columns@.take(i as int));
                }
                total = total + columns[i] as u32;
                assert(total as nat == u8_total(columns@.take(i + 1)));
                if total > 65535 {
                    proof {
                        lemma_u8_total_prefix(columns@, i + 1, columns@.len() as int);
                        assert(columns@.take(columns@.len() as int) =~= columns@);
                    }
                    return false;
                }
                i = i + 1;
            }
            proof {
                assert(columns@.take(columns@.len() as int) =~= columns@);
            }
            true
        },
        _ => true,
    }
}

/// The widths of the first columns add up to no more than those of more columns.
proof fn lemma_u8_total_prefix(widths: Seq<u8>, i: int, j: int)
    requires
        0 <= i <= j <= widths.len(),
    ensures
        u8_total(widths.take(i)) <= u8_total(widths.take(j)),
    decreases j - i,
{
    if i < j {
        assert(widths.take(j).drop_last() =~= widths.take(j - 1));
        lemma_u8_total_prefix(widths, i, j - 1);
    }
}

/// The drawing area in effect.
pub open spec fn current_rect(s: EngineState) -> WindowRect {
    s.rects.last()
}

/// Commands sent after `before`, doing `steps`.
pub open spec fn sent_steps(
    before: Seq<TerminalCommand>,
    after: Seq<TerminalCommand>,
    steps: Seq<DrawStep>,
) -> bool {
    &&& before.len() <= after.len()
    &&& after.take(before.len() as int) == before
    &&& commands_do(after.skip(before.len() as int), steps)
}

/// Commands sent after `before`, doing the first steps of `steps`, at least one: what is sent
/// when a command fails.
pub open spec fn sent_some_steps(
    before: Seq<TerminalCommand>,
    after: Seq<TerminalCommand>,
    steps: Seq<DrawStep>,
) -> bool {
    exists|k: int| 1 <= k <= steps.len() && sent_steps(before, after, #[trigger] steps.take(k))
}

/// What an operation does: the steps it sends and the state it leaves, or why it fails.
pub struct Outcome {
    pub steps: Seq<DrawStep>,
    pub result: Result<EngineState, RenderFailure>,
}

/// Whether what was sent, the state left and the result match an outcome: all of its steps
/// when it went through or failed as the outcome says; some of them, at least one, when the
/// terminal failed.
pub open spec fn performs(
    before: Seq<TerminalCommand>,
    after: Seq<TerminalCommand>,
    state: EngineState,
    r: Result<(), RenderError>,
    outcome: Outcome,
) -> bool {
    match r {
        Ok(()) => outcome.result == Ok::<EngineState, RenderFailure>(state) && sent_steps(
            before,
            after,
            outcome.steps,
        ),
        Err(e) => match failure_of(e) {
            Some(f) => outcome.result == Err::<EngineState, RenderFailure>(f) && sent_steps(
                before,
                after,
                outcome.steps,
            ),
            None => e is Io && sent_some_steps(before, after, outcome.steps),
        },
    }
}

/// An outcome that sends some steps and leaves a state.
pub open spec fn done(steps: Seq<DrawStep>, s: EngineState) -> Outcome {
    Outcome { steps, result: Ok(s) }
}

/// An outcome that sends some steps and fails.
pub open spec fn failed(steps: Seq<DrawStep>, f: RenderFailure) -> Outcome {
    Outcome { steps, result: Err(f) }
}

/// Clearing the screen moves to the start of the drawing area, where nothing is drawn yet.
pub open spec fn clear_screen_outcome(s: EngineState) -> Outcome {
    let r = current_rect(s);
    done(
        seq![DrawStep::ClearScreen, DrawStep::MoveTo(r.start_column, r.start_row)],
        EngineState { max_modified_row: 0, ..s },
    )
}

/// The rect a margin leaves of the current one.
pub open spec fn margin_rect(s: EngineState, p: MarginProperties) -> WindowRect {
    let r = current_rect(s);
    let margin = p.horizontal.characters(r.dimensions.columns);
    r.shrunk_horizontal(margin).shrunk_bottom(p.bottom).shrunk_top(p.top)
}

/// Applying a margin moves down to the new top, unless the cursor is there.
pub open spec fn apply_margin_outcome(s: EngineState, row: u16, p: MarginProperties) -> Outcome {
    let r = margin_rect(s, p);
    done(
        if r.start_row != row {
            seq![DrawStep::MoveToRow(r.start_row)]
        } else {
            Seq::empty()
        },
        EngineState { rects: s.rects.push(r), ..s },
    )
}

/// Popping a margin goes back to the previous drawing area; the whole one cannot be popped.
pub open spec fn pop_margin_outcome(s: EngineState) -> Outcome {
    if s.rects.len() == 1 {
        failed(Seq::empty(), RenderFailure::PopDefaultScreen)
    } else {
        done(Seq::empty(), EngineState { rects: s.rects.drop_last(), ..s })
    }
}

/// Setting the colors sends them and keeps them for later.
pub open spec fn set_colors_outcome(s: EngineState, colors: Colors) -> Outcome {
    done(seq![DrawStep::SetColors(colors)], EngineState { colors, ..s })
}

/// A jump to a row or column of the drawing area.
pub open spec fn jump_outcome(s: EngineState, op: RenderOperation) -> Outcome {
    let r = current_rect(s);
    let step = match op {
        RenderOperation::JumpToVerticalCenter => DrawStep::MoveToRow(
            sat_add(r.dimensions.rows / 2, r.start_row),
        ),
        RenderOperation::JumpToRow { index } => DrawStep::MoveToRow(sat_add(r.start_row, index)),
        RenderOperation::JumpToBottomRow { index } => DrawStep::MoveToRow(
            sat_add(sat_sub(sat_sub(r.dimensions.rows, index), 1), r.start_row),
        ),
        RenderOperation::JumpToColumn { index } => DrawStep::MoveToColumn(
            sat_add(r.start_column, index),
        ),
        _ => DrawStep::MoveToNextLine,
    };
    done(seq![step], s)
}

/// Where text of a given length goes in a drawing area.
pub open spec fn placement(r: WindowRect, alignment: Alignment, length: u16) -> Positioning {
    (Layout { alignment, start_column_offset: r.start_column }).compute_spec(r.dimensions, length)
}

/// The columns a line takes, capped as the engine caps them.
pub open spec fn line_length(line: WeightedLine) -> u16 {
    cap_usize(chunks_width(line.chunks@)) as u16
}

/// Rendering text places it as its alignment says and draws it, centering wrapped lines of
/// centered text, then sends the colors again; text too wide for a too small screen fails.
pub open spec fn text_outcome(
    s: EngineState,
    prefix: &Text,
    line: &WeightedLine,
    alignment: Alignment,
) -> Outcome {
    let p = placement(current_rect(s), alignment, line_length(*line));
    if too_small(*prefix, 0, *line, p, MINIMUM_LINE_LENGTH) {
        failed(Seq::empty(), RenderFailure::TerminalTooSmall)
    } else {
        let d = TextDrawer {
            center_newlines: alignment is Center,
            ..drawer_spec(prefix, 0, line, p, s.colors)
        };
        done(d.draw_steps() + seq![DrawStep::SetColors(s.colors)], s)
    }
}

/// Rendering a block line places the block as its alignment says, moves to its start and
/// draws the text in a block of background color, then sends the colors again. Text wider than
/// the block fails when overflows are checked; text too wide for a too small screen fails.
pub open spec fn block_outcome(
    s: EngineState,
    options: RenderEngineOptions,
    block: &BlockLine,
) -> Outcome {
    let p = placement(current_rect(s), block.alignment, block.block_length);
    if options.validate_overflows && line_length(block.text) > p.max_line_length {
        failed(Seq::empty(), RenderFailure::HorizontalOverflow)
    } else if too_small(
        block.prefix,
        block.right_padding_length,
        block.text,
        p,
        MINIMUM_LINE_LENGTH,
    ) {
        failed(seq![DrawStep::MoveToColumn(p.start_column)], RenderFailure::TerminalTooSmall)
    } else {
        let d = TextDrawer {
            draw_block: true,
            block_color: block.block_color,
            repeat_prefix: block.repeat_prefix_on_wrap,
            ..drawer_spec(&block.prefix, block.right_padding_length, &block.text, p, s.colors)
        };
        done(
            seq![DrawStep::MoveToColumn(p.start_column)] + d.draw_steps() + seq![
                DrawStep::SetColors(s.colors),
            ],
            s,
        )
    }
}

/// Leaving a column moves to the start of the lowest row drawn on and drops the column's rect.
pub open spec fn exit_layout_outcome(s: EngineState) -> Outcome {
    match s.layout {
        LayoutView::Entered(..) => {
            let pop = pop_margin_outcome(EngineState { layout: LayoutView::Default, ..s });
            Outcome {
                steps: seq![DrawStep::MoveTo(0, s.max_modified_row)] + pop.steps,
                result: pop.result,
            }
        },
        _ => done(Seq::empty(), s),
    }
}

/// Columns of the given widths, all starting at `row`.
pub open spec fn init_columns(widths: Seq<u8>, row: u16) -> Seq<Column> {
    widths.map_values(|w: u8| Column { width: w as u16, current_row: row })
}

/// Starting a column layout leaves a column being drawn in, then sets up columns that start at
/// the cursor's row.
pub open spec fn init_layout_outcome(s: EngineState, widths: Seq<u8>, row: u16) -> Outcome {
    let exit = if s.layout is Default {
        done(Seq::empty(), s)
    } else {
        exit_layout_outcome(s)
    };
    match exit.result {
        Ok(s2) => done(
            exit.steps,
            EngineState { layout: LayoutView::Initialized(init_columns(widths, row)), ..s2 },
        ),
        Err(_) => exit,
    }
}

/// The rect of a column: its share of the drawing area's columns, from the row drawing in it
/// got to, with the space between columns taken off the sides that face another column.
pub open spec fn column_rect(r: WindowRect, columns: Seq<Column>, column: int, margin: u16) -> WindowRect {
    let total = widths_total(columns);
    let before = widths_total(columns.take(column));
    let width = columns[column].width;
    let cols = r.dimensions.columns;
    let offset: int = if total == 0 {
        0
    } else {
        (cols * before) as int / total as int
    };
    let unit: int = if total == 0 {
        0
    } else {
        cols as int / total as int
    };
    let start_column = (r.start_column + offset) as u16;
    let start_row = columns[column].current_row;
    let dimensions = r.dimensions.shrunk_columns(((total - width) * unit) as u16).shrunk_rows(
        sat_sub(start_row, r.start_row),
    );
    let dimensions = if start_column + dimensions.columns > u16::MAX {
        dimensions.shrunk_columns((start_column + dimensions.columns - u16::MAX) as u16)
    } else {
        dimensions
    };
    let rect = WindowRect { dimensions, start_column, start_row };
    let rect = if column < columns.len() - 1 {
        rect.shrunk_right(margin)
    } else {
        rect
    };
    if column > 0 {
        rect.shrunk_left(margin)
    } else {
        rect
    }
}

/// Entering a column pushes its rect and moves to its row.
pub open spec fn enter_outcome(s: EngineState, columns: Seq<Column>, column: usize, margin: u16) -> Outcome {
    let rect = column_rect(current_rect(s), columns, column as int, margin);
    done(
        seq![DrawStep::MoveToRow(rect.start_row)],
        EngineState { rects: s.rects.push(rect), layout: LayoutView::Entered(column, columns), ..s },
    )
}

/// Entering a column needs a layout that has it; a column being drawn in is left first.
pub open spec fn enter_column_outcome(s: EngineState, column: usize, margin: u16) -> Outcome {
    match s.layout {
        LayoutView::Default => failed(Seq::empty(), RenderFailure::InvalidLayoutEnter),
        LayoutView::Initialized(columns) => if column >= columns.len() {
            failed(Seq::empty(), RenderFailure::InvalidLayoutEnter)
        } else {
            enter_outcome(EngineState { layout: LayoutView::Default, ..s }, columns, column, margin)
        },
        LayoutView::Entered(_, columns) => if column >= columns.len() {
            failed(Seq::empty(), RenderFailure::InvalidLayoutEnter)
        } else {
            let pop = pop_margin_outcome(EngineState { layout: LayoutView::Default, ..s });
            match pop.result {
                Ok(s2) => enter_outcome(s2, columns, column, margin),
                Err(f) => failed(Seq::empty(), f),
            }
        },
    }
}

/// What rendering an operation does, from the cursor's row before it and after it.
pub open spec fn operation_outcome(
    s: EngineState,
    options: RenderEngineOptions,
    prefix: &Text,
    row_before: u16,
    row_after: u16,
    op: RenderOperation,
) -> Outcome {
    match op {
        RenderOperation::ClearScreen => clear_screen_outcome(s),
        RenderOperation::ApplyMargin(p) => apply_margin_outcome(s, row_before, p),
        RenderOperation::PopMargin => pop_margin_outcome(s),
        RenderOperation::SetColors(colors) => set_colors_outcome(s, colors),
        RenderOperation::JumpToVerticalCenter => jump_outcome(s, op),
        RenderOperation::JumpToRow { .. } => jump_outcome(s, op),
        RenderOperation::JumpToBottomRow { .. } => jump_outcome(s, op),
        RenderOperation::JumpToColumn { .. } => jump_outcome(s, op),
        RenderOperation::RenderText { line, alignment } => text_outcome(s, prefix, &line, alignment),
        RenderOperation::RenderLineBreak => done(seq![DrawStep::MoveToNextLine], s),
        RenderOperation::RenderBlockLine(block) => block_outcome(s, options, &block),
        RenderOperation::InitColumnLayout { columns } => init_layout_outcome(s, columns@, row_after),
        RenderOperation::EnterColumn { column } => enter_column_outcome(
            s,
            column,
            options.column_layout_margin,
        ),
        RenderOperation::ExitLayout => exit_layout_outcome(s),
    }
}

/// After an operation, the column being drawn in goes on from the cursor's row, and the
/// lowest row drawn on is kept.
pub open spec fn after_operation(s: EngineState, row: u16) -> EngineState {
    let layout = match s.layout {
        LayoutView::Entered(c, columns) => LayoutView::Entered(
            c,
            columns.update(c as int, Column { current_row: row, ..columns[c as int] }),
        ),
        LayoutView::Initialized(columns) => LayoutView::Initialized(columns),
        LayoutView::Default => LayoutView::Default,
    };
    EngineState {
        layout,
        max_modified_row: if s.max_modified_row >= row {
            s.max_modified_row
        } else {
            row
        },
        ..s
    }
}

/// What rendering an operation does, with the state updated from the cursor's row after it.
#[verifier::opaque]
pub open spec fn rendered_outcome(
    s: EngineState,
    options: RenderEngineOptions,
    prefix: &Text,
    row_before: u16,
    row_after: u16,
    op: RenderOperation,
) -> Outcome {
    let o = operation_outcome(s, options, prefix, row_before, row_after, op);
    match o.result {
        Ok(s2) => done(o.steps, after_operation(s2, row_after)),
        Err(_) => o,
    }
}

/// Nothing sent does no step.
proof fn lemma_sent_nothing(before: Seq<TerminalCommand>)
    ensures
        sent_steps(before, before, Seq::empty()),
{
    assert(before.take(before.len() as int) =~= before);
    assert(before.skip(before.len() as int) =~= Seq::<TerminalCommand>::empty());
}

/// Some commands sent after others do their steps in turn.
proof fn lemma_sent_commands(before: Seq<TerminalCommand>, commands: Seq<TerminalCommand>, steps: Seq<DrawStep>)
    requires
        commands_do(commands, steps),
    ensures
        sent_steps(before, before + commands, steps),
        forall|k: int|
            0 <= k <= commands.len() ==> sent_steps(
                before,
                before + #[trigger] commands.take(k),
                steps.take(k),
            ),
{
    assert((before + commands).take(before.len() as int) =~= before);
    assert((before + commands).skip(before.len() as int) =~= commands);
    assert forall|k: int| 0 <= k <= commands.len() implies sent_steps(
        before,
        before + #[trigger] commands.take(k),
        steps.take(k),
    ) by {
        assert((before + commands.take(k)).take(before.len() as int) =~= before);
        assert((before + commands.take(k)).skip(before.len() as int) =~= commands.take(k));
    }
}

/// Steps sent after steps do both in turn.
proof fn lemma_sent_then(
    a: Seq<TerminalCommand>,
    b: Seq<TerminalCommand>,
    c: Seq<TerminalCommand>,
    s1: Seq<DrawStep>,
    s2: Seq<DrawStep>,
)
    requires
        sent_steps(a, b, s1),
        sent_steps(b, c, s2),
    ensures
        sent_steps(a, c, s1 + s2),
{
    assert(c.take(a.len() as int) =~= c.take(b.len() as int).take(a.len() as int));
    assert(c.skip(a.len() as int) =~= b.skip(a.len() as int) + c.skip(b.len() as int));
    lemma_commands_concat(b.skip(a.len() as int), c.skip(b.len() as int), s1, s2);
}

/// Steps sent, then some of the next ones, are some of all of them.
proof fn lemma_sent_then_some(
    a: Seq<TerminalCommand>,
    b: Seq<TerminalCommand>,
    c: Seq<TerminalCommand>,
    s1: Seq<DrawStep>,
    s2: Seq<DrawStep>,
)
    requires
        sent_steps(a, b, s1),
        sent_some_steps(b, c, s2),
    ensures
        sent_some_steps(a, c, s1 + s2),
{
    let k = choose|k: int| 1 <= k <= s2.len() && sent_steps(b, c, #[trigger] s2.take(k));
    lemma_sent_then(a, b, c, s1, s2.take(k));
    assert((s1 + s2).take(s1.len() + k) =~= s1 + s2.take(k));
}

/// Some of the first steps are some of them followed by more.
proof fn lemma_sent_some_of_more(a: Seq<TerminalCommand>, b: Seq<TerminalCommand>, s1: Seq<DrawStep>, s2: Seq<DrawStep>)
    requires
        sent_some_steps(a, b, s1),
    ensures
        sent_some_steps(a, b, s1 + s2),
{
    let k = choose|k: int| 1 <= k <= s1.len() && sent_steps(a, b, #[trigger] s1.take(k));
    assert((s1 + s2).take(k) =~= s1.take(k));
}

/// All the steps are some of them, when there is one.
proof fn lemma_sent_all_is_some(a: Seq<TerminalCommand>, b: Seq<TerminalCommand>, s: Seq<DrawStep>)
    requires
        sent_steps(a, b, s),
        s.len() >= 1,
    ensures
        sent_some_steps(a, b, s),
{
    assert(s.take(s.len() as int) =~= s);
}

/// A margin, a column or a side taken off a rect that fits leaves a rect that fits.
proof fn lemma_margin_rect_fits(s: EngineState, p: MarginProperties)
    requires
        state_wf(s),
    ensures
        rect_fits(margin_rect(s, p)),
{
    assert(rect_fits(s.rects[s.rects.len() - 1]));
}

/// Whatever the alignment, text placed on a screen narrower than `u16::MAX` ends within it.
pub proof fn lemma_placement_within(alignment: Alignment, columns: u16, length: u16)
    requires
        columns < u16::MAX,
    ensures
        position_spec(alignment, columns, length).start_column as int + position_spec(
            alignment,
            columns,
            length,
        ).max_line_length as int <= columns as int,
        !right_margin_underflows(alignment, columns),
{
}

/// Columns made from some widths add up to the widths.
proof fn lemma_init_columns_total(widths: Seq<u8>, row: u16)
    ensures
        widths_total(init_columns(widths, row)) == u8_total(widths),
    decreases widths.len(),
{
    if widths.len() > 0 {
        assert(init_columns(widths, row).drop_last() =~= init_columns(widths.drop_last(), row));
        lemma_init_columns_total(widths.drop_last(), row);
    }
}

/// The widths of the first columns add up to no more than those of more columns.
proof fn lemma_widths_total_prefix(columns: Seq<Column>, i: int, j: int)
    requires
        0 <= i <= j <= columns.len(),
    ensures
        widths_total(columns.take(i)) <= widths_total(columns.take(j)),
    decreases j - i,
{
    if i < j {
        assert(columns.take(j).drop_last() =~= columns.take(j - 1));
        lemma_widths_total_prefix(columns, i, j - 1);
    }
}

/// Moving the row of a column keeps the total width.
proof fn lemma_widths_total_update(columns: Seq<Column>, c: int, row: u16)
    requires
        0 <= c < columns.len(),
    ensures
        widths_total(columns.update(c, Column { current_row: row, ..columns[c] })) == widths_total(
            columns,
        ),
    decreases columns.len(),
{
    let updated = columns.update(c, Column { current_row: row, ..columns[c] });
    if c == columns.len() - 1 {
        assert(updated.drop_last() =~= columns.drop_last());
    } else {
        assert(updated.drop_last() =~= columns.drop_last().update(
            c,
            Column { current_row: row, ..columns[c] },
        ));
        lemma_widths_total_update(columns.drop_last(), c, row);
    }
}

/// What rendering some operations in turn does, the cursor's row before the operation at `i`
/// being `rows[i]`: the steps of each, until one fails.
pub open spec fn run_outcome(
    s: EngineState,
    options: RenderEngineOptions,
    prefix: &Text,
    rows: Seq<u16>,
    ops: Seq<RenderOperation>,
) -> Outcome
    decreases ops.len(),
{
    if ops.len() == 0 {
        done(Seq::empty(), s)
    } else {
        let before = run_outcome(s, options, prefix, rows.drop_last(), ops.drop_last());
        match before.result {
            Ok(s2) => {
                let o = rendered_outcome(
                    s2,
                    options,
                    prefix,
                    rows[ops.len() - 1],
                    rows[ops.len() as int],
                    ops.last(),
                );
                Outcome { steps: before.steps + o.steps, result: o.result }
            },
            Err(_) => before,
        }
    }
}

/// The steps that start a render: the drawing area's rows, the start of an update, and a move
/// to the drawing area when it doesn't start at the corner.
pub open spec fn render_head(s: EngineState) -> Seq<DrawStep> {
    let r = current_rect(s);
    seq![DrawStep::SetCursorBoundaries(r.dimensions.rows), DrawStep::BeginUpdate] + if r.start_row
        != 0 || r.start_column != 0 {
        seq![DrawStep::MoveTo(r.start_column, r.start_row)]
    } else {
        Seq::empty()
    }
}

/// What rendering a slide does: the head, each operation in turn, then the end of the update
/// and a flush. When overflows are checked, drawing below the drawing area fails at the end.
pub open spec fn render_outcome(
    s: EngineState,
    options: RenderEngineOptions,
    prefix: &Text,
    rows: Seq<u16>,
    ops: Seq<RenderOperation>,
) -> Outcome {
    let run = run_outcome(s, options, prefix, rows, ops);
    match run.result {
        Ok(s2) => {
            let steps = render_head(s) + run.steps + seq![DrawStep::EndUpdate, DrawStep::Flush];
            if options.validate_overflows && s2.max_modified_row > s2.rects[0].dimensions.rows {
                failed(steps, RenderFailure::VerticalOverflow)
            } else {
                done(steps, s2)
            }
        },
        Err(f) => failed(render_head(s) + run.steps, f),
    }
}

/// Running one more operation extends the run.
proof fn lemma_run_step(
    s: EngineState,
    options: RenderEngineOptions,
    prefix: &Text,
    rows: Seq<u16>,
    ops: Seq<RenderOperation>,
    i: int,
)
    requires
        0 <= i < ops.len(),
        rows.len() == ops.len() + 1,
    ensures
        run_outcome(s, options, prefix, rows.take(i + 2), ops.take(i + 1)) == (match run_outcome(
            s,
            options,
            prefix,
            rows.take(i + 1),
            ops.take(i),
        ).result {
            Ok(s2) => {
                let o = rendered_outcome(s2, options, prefix, rows[i], rows[i + 1], ops[i]);
                Outcome {
                    steps: run_outcome(s, options, prefix, rows.take(i + 1), ops.take(i)).steps
                        + o.steps,
                    result: o.result,
                }
            },
            Err(_) => run_outcome(s, options, prefix, rows.take(i + 1), ops.take(i)),
        }),
{
    assert(ops.take(i + 1).drop_last() =~= ops.take(i));
    assert(rows.take(i + 2).drop_last() =~= rows.take(i + 1));
}

/// Once a run fails, more operations change nothing; and a longer run starts with the steps
/// of a shorter one.
proof fn lemma_run_longer(
    s: EngineState,
    options: RenderEngineOptions,
    prefix: &Text,
    rows: Seq<u16>,
    ops: Seq<RenderOperation>,
    i: int,
    j: int,
)
    requires
        0 <= i <= j <= ops.len(),
        rows.len() == ops.len() + 1,
    ensures
        ({
            let a = run_outcome(s, options, prefix, rows.take(i + 1), ops.take(i));
            let b = run_outcome(s, options, prefix, rows.take(j + 1), ops.take(j));
            &&& a.steps.len() <= b.steps.len()
            &&& b.steps.take(a.steps.len() as int) == a.steps
            &&& a.result is Err ==> b == a
        }),
    decreases j - i,
{
    let a = run_outcome(s, options, prefix, rows.take(i + 1), ops.take(i));
    if i < j {
        lemma_run_longer(s, options, prefix, rows, ops, i, j - 1);
        lemma_run_step(s, options, prefix, rows, ops, j - 1);
        let c = run_outcome(s, options, prefix, rows.take(j), ops.take(j - 1));
        let b = run_outcome(s, options, prefix, rows.take(j + 1), ops.take(j));
        assert(b.steps.take(c.steps.len() as int) =~= c.steps);
        assert(b.steps.take(a.steps.len() as int) =~= c.steps.take(a.steps.len() as int));
    } else {
        assert(a.steps.take(a.steps.len() as int) =~= a.steps);
    }
}

/// What rendering some operations did, the cursor's row before the operation at `i` having
/// been `rows[i]`: it sent and left what the render's outcome says.
pub open spec fn rendered_with_rows(
    before: &RenderEngine,
    after: &RenderEngine,
    ops: Seq<RenderOperation>,
    r: Result<(), RenderError>,
    rows: Seq<u16>,
) -> bool {
    &&& rows.len() == ops.len() + 1
    &&& performs(
        before.sent@,
        after.sent@,
        after.state(),
        r,
        render_outcome(before.state(), before.options, &before.empty_prefix, rows, ops),
    )
}

/// Popping a margin right after applying it gives back the state from before the margin.
pub proof fn lemma_margin_then_pop(s: EngineState, row: u16, p: MarginProperties)
    requires
        state_wf(s),
    ensures
        apply_margin_outcome(s, row, p).result matches Ok(s2) && pop_margin_outcome(s2).result
            == Ok::<EngineState, RenderFailure>(s),
{
    let s2 = EngineState { rects: s.rects.push(margin_rect(s, p)), ..s };
    assert(s2.rects.drop_last() =~= s.rects);
}

/// Rows that go on as the last one, up to a length.
pub open spec fn filled(rows: Seq<u16>, len: nat) -> Seq<u16> {
    rows + Seq::new((len - rows.len()) as nat, |k: int| rows.last())
}

/// Some of the first steps are some of any steps that start with them.
proof fn lemma_sent_some_of_longer(
    a: Seq<TerminalCommand>,
    b: Seq<TerminalCommand>,
    s1: Seq<DrawStep>,
    s2: Seq<DrawStep>,
)
    requires
        sent_some_steps(a, b, s1),
        s1.len() <= s2.len(),
        s2.take(s1.len() as int) == s1,
    ensures
        sent_some_steps(a, b, s2),
{
    lemma_sent_some_of_more(a, b, s1, s2.skip(s1.len() as int));
    assert(s1 + s2.skip(s1.len() as int) =~= s2);
}

/// A render's steps start with its head, then the steps of its run.
proof fn lemma_render_starts(
    s: EngineState,
    options: RenderEngineOptions,
    prefix: &Text,
    rows: Seq<u16>,
    ops: Seq<RenderOperation>,
)
    ensures
        ({
            let full = render_outcome(s, options, prefix, rows, ops).steps;
            let start = render_head(s) + run_outcome(s, options, prefix, rows, ops).steps;
            &&& start.len() <= full.len()
            &&& full.take(start.len() as int) == start
            &&& full.take(render_head(s).len() as int) == render_head(s)
        }),
{
    let full = render_outcome(s, options, prefix, rows, ops).steps;
    let start = render_head(s) + run_outcome(s, options, prefix, rows, ops).steps;
    assert(full.take(start.len() as int) =~= start);
    assert(full.take(render_head(s).len() as int) =~= render_head(s));
}

/// The engine: it renders operations on a terminal, keeping track of the margins applied,
/// the colors, the lowest row drawn on and the column layout.
pub struct RenderEngine {
    pub window_rects: Vec<WindowRect>,
    pub colors: Colors,
    pub max_modified_row: u16,
    pub layout: LayoutState,
    pub options: RenderEngineOptions,
    /// The empty prefix that plain text is drawn after.
    pub empty_prefix: Text,
    /// The commands sent so far.
    pub sent: Ghost<Seq<TerminalCommand>>,
}

impl RenderEngine {
    /// What the engine keeps between operations.
    pub open spec fn state(&self) -> EngineState {
        EngineState {
            rects: self.window_rects@,
            colors: self.colors,
            max_modified_row: self.max_modified_row,
            layout: layout_view(self.layout),
        }
    }

    /// The engine holds together, and its prefix is empty and plain.
    pub open spec fn wf(&self) -> bool {
        &&& state_wf(self.state())
        &&& self.empty_prefix.content@ == Seq::<char>::empty()
        &&& self.empty_prefix.style == TextStyle::plain()
        &&& str_display_width(Seq::<char>::empty()) == 0
    }

    /// What rendering keeps: the options and the prefix.
    pub open spec fn same_setup(&self, other: &RenderEngine) -> bool {
        self.options == other.options && self.empty_prefix == other.empty_prefix
    }

    /// An engine drawing in a window, in the area the options give, with no colors set.
    pub fn new<T: TerminalIo>(terminal: &T, window: WindowSize, options: RenderEngineOptions) -> (e: Self)
        requires
            window.columns < u16::MAX,
        ensures
            e.wf(),
            e.state() == (EngineState {
                rects: seq![starting_rect_spec(window, options)],
                colors: Colors { background: None, foreground: None },
                max_modified_row: terminal.row(),
                layout: LayoutView::Default,
            }),
            e.options == options,
            e.sent@ == Seq::<TerminalCommand>::empty(),
    {
        let max_modified_row = terminal.cursor_row();
        let rect = starting_rect(window, &options);
        let mut window_rects: Vec<WindowRect> = Vec::new();
        window_rects.push(rect);
        let empty_prefix = Text { content: String::new(), style: TextStyle::default() };
        let _ = display_width(empty_prefix.content.as_str());
        let e = RenderEngine {
            window_rects,
            colors: Colors { background: None, foreground: None },
            max_modified_row,
            layout: LayoutState::Default,
            options,
            empty_prefix,
            sent: Ghost(Seq::empty()),
        };
        assert(e.state().rects =~= seq![starting_rect_spec(window, options)]);
        e
    }

    /// The drawing area in effect.
    fn current_rect(&self) -> (r: WindowRect)
        requires
            self.window_rects@.len() >= 1,
        ensures
            r == current_rect(self.state()),
    {
        self.window_rects[self.window_rects.len() - 1]
    }

    /// Sends a command.
    fn send<T: TerminalIo>(&mut self, terminal: &mut T, command: &TerminalCommand) -> (r: Result<(), RenderError>)
        ensures
            *final(self) == (RenderEngine { sent: final(self).sent, ..*old(self) }),
            final(self).sent@ == old(self).sent@.push(*command),
            sent_steps(old(self).sent@, final(self).sent@, seq![command_step(*command)]),
            sent_some_steps(old(self).sent@, final(self).sent@, seq![command_step(*command)]),
            r matches Err(e) ==> e is Io && failure_of(e) is None,
    {
        proof {
            let before = self.sent@;
            self.sent = Ghost(before.push(*command));
            lemma_sent_commands(before, seq![*command], seq![command_step(*command)]);
            assert(before + seq![*command] =~= before.push(*command));
            lemma_sent_all_is_some(before, self.sent@, seq![command_step(*command)]);
        }
        match terminal.execute(command) {
            Ok(()) => Ok(()),
            Err(e) => Err(RenderError::Io(e)),
        }
    }

    /// Sends commands in turn, stopping at the first that fails.
    fn send_all<T: TerminalIo>(&mut self, terminal: &mut T, commands: Vec<TerminalCommand>, Ghost(steps): Ghost<Seq<DrawStep>>) -> (r: Result<(), RenderError>)
        requires
            commands_do(commands@, steps),
        ensures
            *final(self) == (RenderEngine { sent: final(self).sent, ..*old(self) }),
            r is Ok ==> sent_steps(old(self).sent@, final(self).sent@, steps),
            r matches Err(e) ==> e is Io && failure_of(e) is None && sent_some_steps(
                old(self).sent@,
                final(self).sent@,
                steps,
            ),
    {
        let ghost before = self.sent@;
        let mut i: usize = 0;
        proof {
            lemma_sent_commands(before, commands@, steps);
            assert(commands@.take(0) =~= Seq::<TerminalCommand>::empty());
            assert(before + commands@.take(0) =~= before);
        }
        while i < commands.len()
            invariant
                i <= commands@.len(),
                commands_do(commands@, steps),
                self.sent@ == before + commands@.take(i as int),
                forall|k: int|
                    0 <= k <= commands@.len() ==> sent_steps(
                        before,
                        before + #[trigger] commands@.take(k),
                        steps.take(k),
                    ),
                *self == (RenderEngine { sent: self.sent, ..*old(self) }),
                old(self).sent@ == before,
            decreases commands@.len() - i,
        {
            let ghost now = self.sent@;
            let r = self.send(terminal, &commands[i]);
            proof {
                assert(before + commands@.take(i + 1) =~= now.push(commands@[i as int]));
            }
            if r.is_err() {
                proof {
                    assert(sent_steps(before, self.sent@, steps.take(i + 1)));
                }
                return r;
            }
            i = i + 1;
        }
        proof {
            assert(commands@.take(commands@.len() as int) =~= commands@);
            assert(steps.take(steps.len() as int) =~= steps);
        }
        Ok(())
    }

    /// Clears the screen and moves to the start of the drawing area.
    fn clear_screen<T: TerminalIo>(&mut self, terminal: &mut T) -> (r: Result<(), RenderError>)
        requires
            old(self).wf(),
        ensures
            performs(
                old(self).sent@,
                final(self).sent@,
                final(self).state(),
                r,
                clear_screen_outcome(old(self).state()),
            ),
            final(self).same_setup(old(self)),
            r is Ok ==> final(self).wf(),
    {
        let ghost s0 = self.sent@;
        let current = self.current_rect();
        let r = self.send(terminal, &TerminalCommand::ClearScreen);
        let ghost s1 = self.sent@;
        if r.is_err() {
            proof {
                lemma_sent_some_of_more(
                    s0,
                    s1,
                    seq![DrawStep::ClearScreen],
                    seq![DrawStep::MoveTo(current.start_column, current.start_row)],
                );
                assert(seq![DrawStep::ClearScreen] + seq![
                    DrawStep::MoveTo(current.start_column, current.start_row),
                ] =~= clear_screen_outcome(old(self).state()).steps);
            }
            return r;
        }
        let r = self.send(
            terminal,
            &TerminalCommand::MoveTo { column: current.start_column, row: current.start_row },
        );
        proof {
            let a = seq![DrawStep::ClearScreen];
            let b = seq![DrawStep::MoveTo(current.start_column, current.start_row)];
            assert(a + b =~= clear_screen_outcome(old(self).state()).steps);
            lemma_sent_then(s0, s1, self.sent@, a, b);
            lemma_sent_then_some(s0, s1, self.sent@, a, b);
        }
        if r.is_err() {
            return r;
        }
        self.max_modified_row = 0;
        Ok(())
    }

    /// Applies a margin, moving down to its top.
    fn apply_margin<T: TerminalIo>(&mut self, terminal: &mut T, properties: &MarginProperties) -> (r: Result<(), RenderError>)
        requires
            old(self).wf(),
        ensures
            performs(
                old(self).sent@,
                final(self).sent@,
                final(self).state(),
                r,
                apply_margin_outcome(old(self).state(), old(terminal).row(), *properties),
            ),
            final(self).same_setup(old(self)),
            r is Ok ==> final(self).wf(),
    {
        let ghost s0 = self.sent@;
        let current = self.current_rect();
        let margin = properties.horizontal.as_characters(current.dimensions.columns);
        let new_rect = current.shrink_horizontal(margin).shrink_bottom(properties.bottom).shrink_top(
            properties.top,
        );
        proof {
            lemma_margin_rect_fits(self.state(), *properties);
        }
        if new_rect.start_row != terminal.cursor_row() {
            let r = self.send(terminal, &TerminalCommand::MoveToRow(new_rect.start_row));
            if r.is_err() {
                return r;
            }
        } else {
            proof {
                lemma_sent_nothing(s0);
            }
        }
        self.window_rects.push(new_rect);
        proof {
            let st = self.state();
            assert forall|i: int| 0 <= i < st.rects.len() implies rect_fits(#[trigger] st.rects[i]) by {
                if i < st.rects.len() - 1 {
                    assert(st.rects[i] == old(self).state().rects[i]);
                }
            }
        }
        Ok(())
    }

    /// Goes back to the previous drawing area.
    fn pop_margin(&mut self) -> (r: Result<(), RenderError>)
        requires
            old(self).wf(),
        ensures
            performs(
                old(self).sent@,
                final(self).sent@,
                final(self).state(),
                r,
                pop_margin_outcome(old(self).state()),
            ),
            *final(self) == (RenderEngine { window_rects: final(self).window_rects, ..*old(self) }),
            r is Ok ==> final(self).wf() && final(self).window_rects@ == old(
                self,
            ).window_rects@.drop_last(),
    {
        proof {
            lemma_sent_nothing(self.sent@);
        }
        if self.window_rects.len() == 1 {
            return Err(RenderError::PopDefaultScreen);
        }
        self.window_rects.pop();
        proof {
            let st = self.state();
            assert forall|i: int| 0 <= i < st.rects.len() implies rect_fits(#[trigger] st.rects[i]) by {
                assert(st.rects[i] == old(self).state().rects[i]);
            }
        }
        Ok(())
    }

    /// Sets the colors.
    fn set_colors<T: TerminalIo>(&mut self, terminal: &mut T, colors: Colors) -> (r: Result<(), RenderError>)
        requires
            old(self).wf(),
        ensures
            performs(
                old(self).sent@,
                final(self).sent@,
                final(self).state(),
                r,
                set_colors_outcome(old(self).state(), colors),
            ),
            final(self).same_setup(old(self)),
            r is Ok ==> final(self).wf(),
    {
        self.colors = colors;
        self.send(terminal, &TerminalCommand::SetColors(colors))
    }

    /// Jumps to a row or a column of the drawing area.
    fn jump<T: TerminalIo>(&mut self, terminal: &mut T, op: &RenderOperation) -> (r: Result<(), RenderError>)
        requires
            old(self).wf(),
            op is JumpToVerticalCenter || op is JumpToRow || op is JumpToBottomRow || op is JumpToColumn,
        ensures
            performs(
                old(self).sent@,
                final(self).sent@,
                final(self).state(),
                r,
                jump_outcome(old(self).state(), *op),
            ),
            final(self).same_setup(old(self)),
            r is Ok ==> final(self).wf(),
    {
        let current = self.current_rect();
        let command = match op {
            RenderOperation::JumpToVerticalCenter => TerminalCommand::MoveToRow(
                (current.dimensions.rows / 2).saturating_add(current.start_row),
            ),
            RenderOperation::JumpToRow { index } => TerminalCommand::MoveToRow(
                current.start_row.saturating_add(*index),
            ),
            RenderOperation::JumpToBottomRow { index } => TerminalCommand::MoveToRow(
                current.dimensions.rows.saturating_sub(*index).saturating_sub(1).saturating_add(
                    current.start_row,
                ),
            ),
            RenderOperation::JumpToColumn { index } => TerminalCommand::MoveToColumn(
                current.start_column.saturating_add(*index),
            ),
            _ => TerminalCommand::MoveToNextLine,
        };
        self.send(terminal, &command)
    }

    /// Moves to the next line.
    fn render_line_break<T: TerminalIo>(&mut self, terminal: &mut T) -> (r: Result<(), RenderError>)
        requires
            old(self).wf(),
        ensures
            performs(
                old(self).sent@,
                final(self).sent@,
                final(self).state(),
                r,
                done(seq![DrawStep::MoveToNextLine], old(self).state()),
            ),
            final(self).same_setup(old(self)),
            r is Ok ==> final(self).wf(),
    {
        self.send(terminal, &TerminalCommand::MoveToNextLine)
    }

    /// Renders a line of text, placed as its alignment says.
    fn render_text<T: TerminalIo>(&mut self, terminal: &mut T, line: &WeightedLine, alignment: Alignment) -> (r: Result<(), RenderError>)
        requires
            old(self).wf(),
            line.font_size_spec() >= 1,
        ensures
            performs(
                old(self).sent@,
                final(self).sent@,
                final(self).state(),
                r,
                text_outcome(old(self).state(), &old(self).empty_prefix, line, alignment),
            ),
            final(self).same_setup(old(self)),
            r is Ok ==> final(self).wf(),
    {
        let ghost s0 = self.sent@;
        let current = self.current_rect();
        proof {
            assert(rect_fits(self.state().rects[self.state().rects.len() - 1]));
            lemma_placement_within(alignment, current.dimensions.columns, line_length(*line));
        }
        let layout = Layout::new(alignment).with_start_column(current.start_column);
        let length = line.width() as u16;
        let positioning = layout.compute(&current.dimensions, length);
        let colors = self.colors;
        let commands;
        {
            let drawer = match TextDrawer::new(
                &self.empty_prefix,
                0,
                line,
                positioning,
                &colors,
                MINIMUM_LINE_LENGTH,
            ) {
                Ok(d) => d,
                Err(e) => {
                    proof {
                        lemma_sent_nothing(s0);
                    }
                    return Err(e);
                },
            };
            let center = match alignment {
                Alignment::Center { .. } => true,
                _ => false,
            };
            let drawer = drawer.center_newlines(center);
            proof {
                assert forall|i: int| 1 <= i < drawer.lines().len() implies drawer.positioning.start_column
                    + sat_sub(
                    drawer.positioning.max_line_length,
                    crate::text_drawer::total_width(#[trigger] drawer.lines()[i]) as u16,
                ) / 2 <= u16::MAX by {}
            }
            commands = drawer.draw();
        }
        let ghost steps = text_outcome(old(self).state(), &old(self).empty_prefix, line, alignment).steps;
        let ghost draw_steps = steps.drop_last();
        assert(steps =~= draw_steps + seq![DrawStep::SetColors(colors)]);
        let r = self.send_all(terminal, commands, Ghost(draw_steps));
        let ghost s1 = self.sent@;
        if r.is_err() {
            proof {
                lemma_sent_some_of_more(s0, s1, draw_steps, seq![DrawStep::SetColors(colors)]);
            }
            return r;
        }
        let r = self.send(terminal, &TerminalCommand::SetColors(colors));
        proof {
            lemma_sent_then(s0, s1, self.sent@, draw_steps, seq![DrawStep::SetColors(colors)]);
            lemma_sent_then_some(s0, s1, self.sent@, draw_steps, seq![DrawStep::SetColors(colors)]);
        }
        r
    }

    /// Renders a line of text in a block of background color.
    fn render_block_line<T: TerminalIo>(&mut self, terminal: &mut T, block: &BlockLine) -> (r: Result<(), RenderError>)
        requires
            old(self).wf(),
            block.text.font_size_spec() >= 1,
        ensures
            performs(
                old(self).sent@,
                final(self).sent@,
                final(self).state(),
                r,
                block_outcome(old(self).state(), old(self).options, block),
            ),
            final(self).same_setup(old(self)),
            r is Ok ==> final(self).wf(),
    {
        let ghost s0 = self.sent@;
        let current = self.current_rect();
        proof {
            assert(rect_fits(self.state().rects[self.state().rects.len() - 1]));
            lemma_placement_within(block.alignment, current.dimensions.columns, block.block_length);
        }
        let layout = Layout::new(block.alignment).with_start_column(current.start_column);
        let positioning = layout.compute(&current.dimensions, block.block_length);
        if self.options.validate_overflows && block.text.width() as u16 > positioning.max_line_length {
            proof {
                lemma_sent_nothing(s0);
            }
            return Err(RenderError::HorizontalOverflow);
        }
        let ghost steps = block_outcome(old(self).state(), old(self).options, block).steps;
        let ghost first = seq![DrawStep::MoveToColumn(positioning.start_column)];
        let r = self.send(terminal, &TerminalCommand::MoveToColumn(positioning.start_column));
        let ghost s1 = self.sent@;
        if r.is_err() {
            proof {
                lemma_sent_some_of_more(s0, s1, first, steps.skip(1));
                assert(first + steps.skip(1) =~= steps);
            }
            return r;
        }
        let colors = self.colors;
        let commands;
        {
            let drawer = match TextDrawer::new(
                &block.prefix,
                block.right_padding_length,
                &block.text,
                positioning,
                &colors,
                MINIMUM_LINE_LENGTH,
            ) {
                Ok(d) => d,
                Err(e) => {
                    return Err(e);
                },
            };
            let drawer = drawer.with_surrounding_block(block.block_color).repeat_prefix_on_wrap(
                block.repeat_prefix_on_wrap,
            );
            commands = drawer.draw();
        }
        let ghost draw_steps = steps.skip(1).drop_last();
        assert(steps =~= first + draw_steps + seq![DrawStep::SetColors(colors)]);
        let r = self.send_all(terminal, commands, Ghost(draw_steps));
        let ghost s2 = self.sent@;
        if r.is_err() {
            proof {
                lemma_sent_then_some(s0, s1, s2, first, draw_steps);
                lemma_sent_some_of_more(s0, s2, first + draw_steps, seq![DrawStep::SetColors(colors)]);
            }
            return r;
        }
        let r = self.send(terminal, &TerminalCommand::SetColors(colors));
        proof {
            lemma_sent_then(s0, s1, s2, first, draw_steps);
            lemma_sent_then(s0, s2, self.sent@, first + draw_steps, seq![DrawStep::SetColors(colors)]);
            lemma_sent_then_some(
                s0,
                s2,
                self.sent@,
                first + draw_steps,
                seq![DrawStep::SetColors(colors)],
            );
        }
        r
    }

    /// Leaves the column being drawn in, if any.
    fn exit_layout<T: TerminalIo>(&mut self, terminal: &mut T) -> (r: Result<(), RenderError>)
        requires
            old(self).wf(),
        ensures
            performs(
                old(self).sent@,
                final(self).sent@,
                final(self).state(),
                r,
                exit_layout_outcome(old(self).state()),
            ),
            final(self).same_setup(old(self)),
            r is Ok ==> final(self).wf(),
    {
        let ghost s0 = self.sent@;
        if let LayoutState::EnteredColumn { .. } = self.layout {
            let ghost pop_steps = Seq::<DrawStep>::empty();
            let ghost first = seq![DrawStep::MoveTo(0, self.max_modified_row)];
            let r = self.send(terminal, &TerminalCommand::MoveTo { column: 0, row: self.max_modified_row });
            let ghost s1 = self.sent@;
            proof {
                assert(first + pop_steps =~= first);
            }
            if r.is_err() {
                return r;
            }
            self.layout = LayoutState::Default;
            let r = self.pop_margin();
            proof {
                lemma_sent_then(s0, s1, self.sent@, first, pop_steps);
            }
            r
        } else {
            proof {
                lemma_sent_nothing(s0);
            }
            Ok(())
        }
    }

    /// Starts a column layout with columns of the given widths.
    fn init_column_layout<T: TerminalIo>(&mut self, terminal: &mut T, widths: &Vec<u8>) -> (r: Result<(), RenderError>)
        requires
            old(self).wf(),
            u8_total(widths@) <= u16::MAX,
        ensures
            performs(
                old(self).sent@,
                final(self).sent@,
                final(self).state(),
                r,
                init_layout_outcome(old(self).state(), widths@, final(terminal).row()),
            ),
            final(self).same_setup(old(self)),
            r is Ok ==> final(self).wf(),
    {
        let ghost s0 = self.sent@;
        let is_default = match self.layout {
            LayoutState::Default => true,
            _ => false,
        };
        if !is_default {
            let r = self.exit_layout(terminal);
            if r.is_err() {
                return r;
            }
        } else {
            proof {
                lemma_sent_nothing(s0);
            }
        }
        let row = terminal.cursor_row();
        let mut columns: Vec<Column> = Vec::new();
        let mut i: usize = 0;
        while i < widths.len()
            invariant
                i <= widths@.len(),
                columns@ == init_columns(widths@.take(i as int), row),
            decreases widths@.len() - i,
        {
            columns.push(Column { width: widths[i] as u16, current_row: row });
            proof {
                assert(init_columns(widths@.take(i + 1), row) =~= init_columns(
                    widths@.take(i as int),
                    row,
                ).push(Column { width: widths@[i as int] as u16, current_row: row }));
            }
            i = i + 1;
        }
        proof {
            assert(widths@.take(widths@.len() as int) =~= widths@);
            lemma_init_columns_total(widths@, row);
        }
        self.layout = LayoutState::InitializedColumn { columns };
        Ok(())
    }

    /// The rect of a column of the current drawing area.
    fn column_rect(&self, columns: &Vec<Column>, column_index: usize) -> (rect: WindowRect)
        requires
            self.wf(),
            column_index < columns@.len(),
            widths_total(columns@) <= u16::MAX,
        ensures
            rect == column_rect(
                current_rect(self.state()),
                columns@,
                column_index as int,
                self.options.column_layout_margin,
            ),
            rect_fits(rect),
    {
        let ghost cols = columns@;
        let current = self.current_rect();
        proof {
            assert(rect_fits(self.state().rects[self.state().rects.len() - 1]));
        }
        let mut total: u32 = 0;
        let mut before: u32 = 0;
        let mut i: usize = 0;
        proof {
            assert(cols.take(0) =~= Seq::<Column>::empty());
            assert(cols.take(cols.len() as int) =~= cols);
        }
        while i < columns.len()
            invariant
                i <= cols.len(),
                cols == columns@,
                column_index < cols.len(),
                total == widths_total(cols.take(i as int)),
                widths_total(cols) <= u16::MAX,
                cols.take(cols.len() as int) == cols,
                i > column_index ==> before == widths_total(cols.take(column_index as int)),
            decreases cols.len() - i,
        {
            if i == column_index {
                before = total;
            }
            proof {
                assert(cols.take(i + 1).drop_last() =~= cols.take(i as int));
                lemma_widths_total_prefix(cols, i + 1, cols.len() as int);
            }
            total = total + columns[i].width as u32;
            i = i + 1;
        }
        let width = columns[column_index].width as u32;
        proof {
            assert(cols.take(column_index + 1).drop_last() =~= cols.take(column_index as int));
            lemma_widths_total_prefix(cols, column_index + 1, cols.len() as int);
            assert(before + width <= total);
        }
        let cols_n = current.dimensions.columns as u32;
        let mut offset: u32 = 0;
        let mut unit: u32 = 0;
        if total > 0 {
            assert(cols_n * before <= 65535 * 65535) by (nonlinear_arith)
                requires
                    cols_n <= 65535,
                    before <= 65535,
            ;
            offset = cols_n * before / total;
            unit = cols_n / total;
            assert((cols_n * before) as int / total as int <= cols_n) by (nonlinear_arith)
                requires
                    before <= total,
                    total > 0,
            ;
            assert((total - width) * (cols_n / total) <= cols_n) by (nonlinear_arith)
                requires
                    width <= total,
                    total > 0,
            {
                assert(total * (cols_n / total) <= cols_n);
                assert((total - width) * (cols_n / total) <= total * (cols_n / total));
            }
        }
        let start_column = current.start_column + offset as u16;
        let start_row = columns[column_index].current_row;
        let new_count = ((total - width) * unit) as u16;
        let mut dimensions = current.dimensions.shrink_columns(new_count).shrink_rows(
            start_row.saturating_sub(current.start_row),
        );
        if start_column as u32 + dimensions.columns as u32 > 65535 {
            dimensions = dimensions.shrink_columns(
                (start_column as u32 + dimensions.columns as u32 - 65535) as u16,
            );
        }
        let mut rect = WindowRect { dimensions, start_column, start_row };
        let margin = self.options.column_layout_margin;
        if column_index < columns.len() - 1 {
            rect = rect.shrink_right(margin);
        }
        if column_index > 0 {
            rect = rect.shrink_left(margin);
        }
        rect
    }

    /// Enters a column of the column layout, leaving the one being drawn in.
    fn enter_column<T: TerminalIo>(&mut self, terminal: &mut T, column_index: usize) -> (r: Result<(), RenderError>)
        requires
            old(self).wf(),
        ensures
            performs(
                old(self).sent@,
                final(self).sent@,
                final(self).state(),
                r,
                enter_column_outcome(
                    old(self).state(),
                    column_index,
                    old(self).options.column_layout_margin,
                ),
            ),
            final(self).same_setup(old(self)),
            r is Ok ==> final(self).wf(),
    {
        let ghost s0 = self.sent@;
        proof {
            lemma_sent_nothing(s0);
        }
        let mut taken = LayoutState::Default;
        std::mem::swap(&mut taken, &mut self.layout);
        let columns = match taken {
            LayoutState::Default => {
                return Err(RenderError::InvalidLayoutEnter);
            },
            LayoutState::InitializedColumn { columns } => {
                if column_index >= columns.len() {
                    return Err(RenderError::InvalidLayoutEnter);
                }
                columns
            },
            LayoutState::EnteredColumn { columns, .. } => {
                if column_index >= columns.len() {
                    return Err(RenderError::InvalidLayoutEnter);
                }
                let r = self.pop_margin();
                if r.is_err() {
                    return r;
                }
                columns
            },
        };
        let rect = self.column_rect(&columns, column_index);
        self.window_rects.push(rect);
        let r = self.send(terminal, &TerminalCommand::MoveToRow(rect.start_row));
        if r.is_err() {
            return r;
        }
        self.layout = LayoutState::EnteredColumn { column: column_index, columns };
        proof {
            let st = self.state();
            assert forall|i: int| 0 <= i < st.rects.len() implies rect_fits(#[trigger] st.rects[i]) by {
                if i < st.rects.len() - 1 {
                    assert(st.rects[i] == old(self).state().rects[i] || st.rects.len() - 1
                        < old(self).state().rects.len());
                }
            }
        }
        Ok(())
    }

    /// Renders an operation; then the column being drawn in goes on from the cursor's row,
    /// and the lowest row drawn on is kept.
    pub fn render_one<T: TerminalIo>(&mut self, terminal: &mut T, operation: &RenderOperation) -> (r: Result<(), RenderError>)
        requires
            old(self).wf(),
            operation_renderable(*operation),
        ensures
            performs(
                old(self).sent@,
                final(self).sent@,
                final(self).state(),
                r,
                rendered_outcome(
                    old(self).state(),
                    old(self).options,
                    &old(self).empty_prefix,
                    old(terminal).row(),
                    final(terminal).row(),
                    *operation,
                ),
            ),
            final(self).same_setup(old(self)),
            r is Ok ==> final(self).wf(),
    {
        let r = match operation {
            RenderOperation::ClearScreen => self.clear_screen(terminal),
            RenderOperation::ApplyMargin(properties) => self.apply_margin(terminal, properties),
            RenderOperation::PopMargin => self.pop_margin(),
            RenderOperation::SetColors(colors) => self.set_colors(terminal, *colors),
            RenderOperation::JumpToVerticalCenter => self.jump(terminal, operation),
            RenderOperation::JumpToRow { .. } => self.jump(terminal, operation),
            RenderOperation::JumpToBottomRow { .. } => self.jump(terminal, operation),
            RenderOperation::JumpToColumn { .. } => self.jump(terminal, operation),
            RenderOperation::RenderText { line, alignment } => self.render_text(terminal, line, *alignment),
            RenderOperation::RenderLineBreak => self.render_line_break(terminal),
            RenderOperation::RenderBlockLine(block) => self.render_block_line(terminal, block),
            RenderOperation::InitColumnLayout { columns } => self.init_column_layout(terminal, columns),
            RenderOperation::EnterColumn { column } => self.enter_column(terminal, *column),
            RenderOperation::ExitLayout => self.exit_layout(terminal),
        };
        proof {
            reveal(rendered_outcome);
        }
        if r.is_err() {
            return r;
        }
        let row = terminal.cursor_row();
        let mut taken = LayoutState::Default;
        std::mem::swap(&mut taken, &mut self.layout);
        let updated = match taken {
            LayoutState::EnteredColumn { column, mut columns } => {
                let width = columns[column].width;
                proof {
                    lemma_widths_total_update(columns@, column as int, row);
                }
                columns.set(column, Column { width, current_row: row });
                LayoutState::EnteredColumn { column, columns }
            },
            other => other,
        };
        self.layout = updated;
        if row > self.max_modified_row {
            self.max_modified_row = row;
        }
        Ok(())
    }

    /// Renders a slide's operations in turn: starts an update, moving to the drawing area,
    /// renders each operation until one fails, ends the update and flushes. When overflows are
    /// checked, drawing below the drawing area fails.
    pub fn render<T: TerminalIo>(&mut self, terminal: &mut T, operations: &Vec<RenderOperation>) -> (r: Result<(), RenderError>)
        requires
            old(self).wf(),
            forall|i: int| 0 <= i < operations@.len() ==> operation_renderable(#[trigger] operations@[i]),
        ensures
            exists|rows: Seq<u16>|
                #[trigger] rendered_with_rows(
                    old(self),
                    final(self),
                    operations@,
                    r,
                    rows,
                ),
            final(self).same_setup(old(self)),
    {
        let ghost s0 = self.sent@;
        let ghost st0 = self.state();
        let ghost prefix = &self.empty_prefix;
        let ghost options = self.options;
        let ghost ops = operations@;
        let ghost n = ops.len();
        let ghost head = render_head(st0);
        let ghost row0 = terminal.row();
        let current = self.current_rect();
        let ghost k1 = seq![DrawStep::SetCursorBoundaries(current.dimensions.rows)];
        let ghost k2 = seq![DrawStep::BeginUpdate];
        proof {
            let w = filled(seq![row0], (n + 1) as nat);
            lemma_render_starts(st0, options, prefix, w, ops);
            assert(w[0] == row0);
            assert(head.take(1) =~= k1);
            assert(head.take(2) =~= k1 + k2);
        }
        let r = self.send(terminal, &TerminalCommand::SetCursorBoundaries { rows: current.dimensions.rows });
        let ghost s1 = self.sent@;
        if r.is_err() {
            proof {
                let w = filled(seq![row0], (n + 1) as nat);
                let full = render_outcome(st0, options, prefix, w, ops).steps;
                assert(full.take(1) =~= full.take(head.len() as int).take(1));
                lemma_sent_some_of_longer(s0, s1, k1, full);
                assert(rendered_with_rows(old(self), self, ops, r, w));
            }
            return r;
        }
        let r = self.send(terminal, &TerminalCommand::BeginUpdate);
        let ghost s2 = self.sent@;
        proof {
            lemma_sent_then(s0, s1, s2, k1, k2);
            lemma_sent_then_some(s0, s1, s2, k1, k2);
        }
        if r.is_err() {
            proof {
                let w = filled(seq![row0], (n + 1) as nat);
                let full = render_outcome(st0, options, prefix, w, ops).steps;
                assert(full.take(2) =~= full.take(head.len() as int).take(2));
                lemma_sent_some_of_longer(s0, s2, k1 + k2, full);
                assert(rendered_with_rows(old(self), self, ops, r, w));
            }
            return r;
        }
        if current.start_row != 0 || current.start_column != 0 {
            let r = self.send(
                terminal,
                &TerminalCommand::MoveTo { column: current.start_column, row: current.start_row },
            );
            proof {
                let k3 = seq![DrawStep::MoveTo(current.start_column, current.start_row)];
                assert(head =~= k1 + k2 + k3);
                lemma_sent_then(s0, s2, self.sent@, k1 + k2, k3);
                lemma_sent_then_some(s0, s2, self.sent@, k1 + k2, k3);
            }
            if r.is_err() {
                proof {
                    let w = filled(seq![row0], (n + 1) as nat);
                    let full = render_outcome(st0, options, prefix, w, ops).steps;
                    lemma_sent_some_of_longer(s0, self.sent@, head, full);
                    assert(rendered_with_rows(old(self), self, ops, r, w));
                }
                return r;
            }
        } else {
            proof {
                assert(head =~= k1 + k2);
            }
        }
        let ghost mut rows: Seq<u16> = seq![terminal.row()];
        let mut i: usize = 0;
        proof {
            assert(ops.take(0) =~= Seq::<RenderOperation>::empty());
            assert(head + Seq::<DrawStep>::empty() =~= head);
        }
        while i < operations.len()
            invariant
                i <= n,
                n == operations@.len(),
                ops == operations@,
                rows.len() == i + 1,
                rows[i as int] == terminal.row(),
                self.wf(),
                self.same_setup(old(self)),
                options == old(self).options,
                prefix == &old(self).empty_prefix,
                st0 == old(self).state(),
                s0 == old(self).sent@,
                head == render_head(st0),
                forall|j: int| 0 <= j < operations@.len() ==> operation_renderable(#[trigger] operations@[j]),
                sent_steps(
                    s0,
                    self.sent@,
                    head + run_outcome(st0, options, prefix, rows, ops.take(i as int)).steps,
                ),
                run_outcome(st0, options, prefix, rows, ops.take(i as int)).result == Ok::<
                    EngineState,
                    RenderFailure,
                >(self.state()),
            decreases n - i,
        {
            let ghost before_sent = self.sent@;
            let ghost before_state = self.state();
            let ghost row_b = terminal.row();
            let ghost run_i = run_outcome(st0, options, prefix, rows, ops.take(i as int));
            let r = self.render_one(terminal, &operations[i]);
            let ghost row_a = terminal.row();
            let ghost rows2 = rows.push(row_a);
            let ghost o = rendered_outcome(before_state, options, prefix, row_b, row_a, ops[i as int]);
            proof {
                assert(ops.take(i + 1).drop_last() =~= ops.take(i as int));
                assert(rows2.drop_last() =~= rows);
                assert(ops.take(i + 1).last() == ops[i as int]);
                let next = run_outcome(st0, options, prefix, rows2, ops.take(i + 1));
                assert(next.steps == run_i.steps + o.steps);
                assert(next.result == o.result);
                assert(head + next.steps =~= head + run_i.steps + o.steps);
            }
            if r.is_err() {
                proof {
                    let w = filled(rows2, (n + 1) as nat);
                    assert(w.take(i + 2) =~= rows2);
                    assert(w.take(n + 1 as int) =~= w);
                    assert(ops.take(n as int) =~= ops);
                    lemma_run_longer(st0, options, prefix, w, ops, i + 1, n as int);
                    lemma_render_starts(st0, options, prefix, w, ops);
                    let full = render_outcome(st0, options, prefix, w, ops);
                    let start = head + run_i.steps + o.steps;
                    if failure_of(r->Err_0) is Some {
                        lemma_sent_then(s0, before_sent, self.sent@, head + run_i.steps, o.steps);
                        assert(full.steps =~= start);
                    } else {
                        lemma_sent_then_some(
                            s0,
                            before_sent,
                            self.sent@,
                            head + run_i.steps,
                            o.steps,
                        );
                        assert(full.steps.take(start.len() as int) =~= start);
                        lemma_sent_some_of_longer(s0, self.sent@, start, full.steps);
                    }
                    assert(performs(s0, self.sent@, self.state(), r, full));
                    assert(rendered_with_rows(old(self), self, ops, r, w));
                }
                return r;
            }
            proof {
                lemma_sent_then(s0, before_sent, self.sent@, head + run_i.steps, o.steps);
            }
            proof {
                rows = rows2;
            }
            i = i + 1;
        }
        proof {
            assert(ops.take(n as int) =~= ops);
        }
        let ghost run = run_outcome(st0, options, prefix, rows, ops);
        let ghost s3 = self.sent@;
        let ghost tail = seq![DrawStep::EndUpdate, DrawStep::Flush];
        let ghost full = render_outcome(st0, options, prefix, rows, ops);
        proof {
            assert(full.steps =~= head + run.steps + tail);
        }
        let r = self.send(terminal, &TerminalCommand::EndUpdate);
        let ghost s4 = self.sent@;
        proof {
            let e1 = seq![DrawStep::EndUpdate];
            lemma_sent_then(s0, s3, s4, head + run.steps, e1);
            lemma_sent_then_some(s0, s3, s4, head + run.steps, e1);
        }
        if r.is_err() {
            proof {
                let e1 = seq![DrawStep::EndUpdate];
                assert(full.steps.take((head + run.steps + e1).len() as int) =~= head + run.steps + e1);
                lemma_sent_some_of_longer(s0, s4, head + run.steps + e1, full.steps);
                assert(rendered_with_rows(old(self), self, ops, r, rows));
            }
            return r;
        }
        let r = self.send(terminal, &TerminalCommand::Flush);
        proof {
            let e1 = seq![DrawStep::EndUpdate];
            let e2 = seq![DrawStep::Flush];
            assert(head + run.steps + e1 + e2 =~= full.steps);
            lemma_sent_then(s0, s4, self.sent@, head + run.steps + e1, e2);
            lemma_sent_then_some(s0, s4, self.sent@, head + run.steps + e1, e2);
        }
        if r.is_err() {
            proof {
                assert(rendered_with_rows(old(self), self, ops, r, rows));
            }
            return r;
        }
        if self.options.validate_overflows && self.max_modified_row > self.window_rects[0].dimensions.rows {
            proof {
                assert(rendered_with_rows(old(self), self, ops, Err(RenderError::VerticalOverflow), rows));
            }
            return Err(RenderError::VerticalOverflow);
        }
        proof {
            assert(rendered_with_rows(old(self), self, ops, Ok(()), rows));
        }
        Ok(())
    }
}

} // verus!
