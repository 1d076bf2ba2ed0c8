//! Drawing on a terminal: render operations, the modals and errors.
use crate::diff::line_contents;
use crate::engine::{
    failure_of, performs, render_outcome, rendered_with_rows, sent_some_steps, sent_steps,
    starting_rect_spec, EngineState, LayoutView, MaxColumnsAlignment, MaxRowsAlignment, MaxSize,
    RenderEngine, RenderEngineOptions, operation_renderable,
};
use crate::operation::RenderOperation;
use crate::options::RenderError;
use crate::presentation::Presentation;
use crate::presenter::ErrorSource;
use crate::properties::{sat_sub, WindowSize};
use crate::style::{Color, Colors, TextStyle, BOLD_FLAG};
use crate::text::{Text, WeightedLine};
use crate::text_drawer::{commands_do, DrawStep};
use crate::text_util::{all_lines, decimal, lines_of, str_chars, string_from_chars, usize_to_string};
use crate::theme::{Alignment, Margin};
use crate::virt::{Terminal, TerminalCommand, TerminalWrite};
use std::io::Error as IoError;
use vstd::prelude::*;

verus! {

/// The alignment of an error's heading.
pub open spec fn error_heading_alignment() -> Alignment {
    Alignment::Center { minimum_margin: Margin::Percent(8), minimum_size: 0 }
}

/// The alignment of an error's lines: centered for the presentation, left with a margin of a
/// quarter of the screen for a slide.
pub open spec fn error_alignment(source: ErrorSource) -> Alignment {
    match source {
        ErrorSource::Presentation => error_heading_alignment(),
        ErrorSource::Slide(_) => Alignment::Left { margin: Margin::Percent(25) },
    }
}

/// An error's heading: where it comes from.
pub open spec fn error_heading(source: ErrorSource) -> Seq<char> {
    match source {
        ErrorSource::Presentation => "Error loading presentation"@,
        ErrorSource::Slide(n) => "Error in slide "@ + decimal(n as nat),
    }
}

/// The row an error starts in, so that its lines are about centered.
pub open spec fn error_start_row(rows: u16, lines: nat) -> u16 {
    sat_sub(rows / 2, ((lines as u16) / 2 + 3) as u16)
}

/// Errors are drawn in red on black.
pub open spec fn error_colors() -> Colors {
    Colors {
        foreground: Some(Color::Rgb { r: 255, g: 0, b: 0 }),
        background: Some(Color::Rgb { r: 0, g: 0, b: 0 }),
    }
}

/// The bold style.
pub open spec fn bold_style() -> TextStyle {
    TextStyle { flags: BOLD_FLAG, ..TextStyle::plain() }
}

/// Whether an operation renders text with the given pieces and alignment.
pub open spec fn renders_text(
    op: RenderOperation,
    contents: Seq<(Seq<char>, TextStyle)>,
    alignment: Alignment,
) -> bool {
    op matches RenderOperation::RenderText { line, alignment: a } && line_contents(line) == contents
        && a == alignment
}

/// The operation that renders the line of an error message at `i`.
pub open spec fn message_line_operation(ops: Seq<RenderOperation>, i: int) -> RenderOperation {
    ops[6 + 2 * i]
}

/// The operations that show an error: set red on black, clear the screen, jump to the starting
/// row, show the heading and two line breaks, then each line of the message and a line break.
pub open spec fn shows_error(
    ops: Seq<RenderOperation>,
    message: Seq<char>,
    source: ErrorSource,
    rows: u16,
) -> bool {
    let lines = lines_of(message);
    &&& ops.len() == 6 + 2 * lines.len()
    &&& ops[0] == RenderOperation::SetColors(error_colors())
    &&& ops[1] is ClearScreen
    &&& ops[2] == (RenderOperation::JumpToRow { index: error_start_row(rows, lines.len()) })
    &&& renders_text(
        ops[3],
        seq![(error_heading(source), bold_style()), (": "@, TextStyle::plain())],
        error_heading_alignment(),
    )
    &&& ops[4] is RenderLineBreak
    &&& ops[5] is RenderLineBreak
    &&& forall|i: int|
        0 <= i < lines.len() ==> renders_text(
            #[trigger] message_line_operation(ops, i),
            seq![(lines[i], TextStyle::plain())],
            error_alignment(source),
        ) && ops[7 + 2 * i] is RenderLineBreak
}

/// The heading of an error.
fn error_heading_text(source: &ErrorSource) -> (s: String)
    ensures
        s@ == error_heading(*source),
{
    match source {
        ErrorSource::Presentation => {
            let chars = str_chars("Error loading presentation");
            string_from_chars(chars.as_slice())
        },
        ErrorSource::Slide(n) => {
            let mut chars = str_chars("Error in slide ");
            let number = usize_to_string(*n);
            let mut digits = str_chars(number.as_str());
            chars.append(&mut digits);
            string_from_chars(chars.as_slice())
        },
    }
}

/// The operations that show an error in a window with the given number of rows.
pub fn error_operations(message: &str, source: &ErrorSource, rows: u16) -> (ops: Vec<RenderOperation>)
    ensures
        shows_error(ops@, message@, *source, rows),
        forall|i: int| 0 <= i < ops@.len() ==> operation_renderable(#[trigger] ops@[i]),
{
    let chars = str_chars(message);
    let lines = all_lines(chars.as_slice());
    let total = lines.len();
    let starting_row = (rows / 2).saturating_sub((total as u16) / 2 + 3);
    let heading_alignment = Alignment::Center { minimum_margin: Margin::Percent(8), minimum_size: 0 };
    let alignment = match source {
        ErrorSource::Presentation => Alignment::Center {
            minimum_margin: Margin::Percent(8),
            minimum_size: 0,
        },
        ErrorSource::Slide(_) => Alignment::Left { margin: Margin::Percent(25) },
    };
    let bold = TextStyle::default().bold();
    assert(0u8 | 1u8 == 1u8) by (bit_vector);
    let mut heading: Vec<Text> = Vec::new();
    heading.push(Text { content: error_heading_text(source), style: bold });
    heading.push(Text::new(": ", TextStyle::default()));
    let heading_line = WeightedLine { chunks: heading };
    let mut ops: Vec<RenderOperation> = Vec::new();
    ops.push(
        RenderOperation::SetColors(
            Colors { foreground: Some(Color::new(255, 0, 0)), background: Some(Color::new(0, 0, 0)) },
        ),
    );
    ops.push(RenderOperation::ClearScreen);
    ops.push(RenderOperation::JumpToRow { index: starting_row });
    ops.push(RenderOperation::RenderText { line: heading_line, alignment: heading_alignment });
    ops.push(RenderOperation::RenderLineBreak);
    ops.push(RenderOperation::RenderLineBreak);
    proof {
        let h = ops@[3];
        if let RenderOperation::RenderText { line, alignment: a } = h {
            assert(line_contents(line) =~= seq![
                (error_heading(*source), bold_style()),
                (": "@, TextStyle::plain()),
            ]);
        }
    }
    let mut i: usize = 0;
    while i < total
        invariant
            i <= total,
            total == lines@.len(),
            total == lines_of(message@).len(),
            chars@ == message@,
            forall|j: int| 0 <= j < lines@.len() ==> (#[trigger] lines@[j])@ == lines_of(chars@)[j],
            ops@.len() == 6 + 2 * i,
            ops@[0] == RenderOperation::SetColors(error_colors()),
            ops@[1] is ClearScreen,
            ops@[2] == (RenderOperation::JumpToRow { index: error_start_row(rows, total as nat) }),
            renders_text(
                ops@[3],
                seq![(error_heading(*source), bold_style()), (": "@, TextStyle::plain())],
                error_heading_alignment(),
            ),
            ops@[3] matches RenderOperation::RenderText { line, .. } && line.font_size_spec() >= 1,
            ops@[4] is RenderLineBreak,
            ops@[5] is RenderLineBreak,
            alignment == error_alignment(*source),
            forall|j: int|
                0 <= j < i ==> renders_text(
                    #[trigger] message_line_operation(ops@, j),
                    seq![(lines_of(message@)[j], TextStyle::plain())],
                    error_alignment(*source),
                ) && ops@[7 + 2 * j] is RenderLineBreak,
            forall|j: int| 0 <= j < ops@.len() ==> operation_renderable(#[trigger] ops@[j]),
        decreases total - i,
    {
        let text = Text { content: string_from_chars(lines[i].as_slice()), style: TextStyle::default() };
        let line = WeightedLine::from_text(text);
        proof {
            assert(line_contents(line) =~= seq![(lines_of(message@)[i as int], TextStyle::plain())]);
        }
        let ghost before = ops@;
        ops.push(RenderOperation::RenderText { line, alignment });
        ops.push(RenderOperation::RenderLineBreak);
        proof {
            assert forall|j: int| 0 <= j < i + 1 implies renders_text(
                #[trigger] message_line_operation(ops@, j),
                seq![(lines_of(message@)[j], TextStyle::plain())],
                error_alignment(*source),
            ) && ops@[7 + 2 * j] is RenderLineBreak by {
                if j < i {
                    assert(message_line_operation(ops@, j) == message_line_operation(before, j));
                    assert(ops@[7 + 2 * j] == before[7 + 2 * j]);
                }
            }
            assert forall|j: int| 0 <= j < ops@.len() implies operation_renderable(#[trigger] ops@[j]) by {
                if j < before.len() {
                    assert(ops@[j] == before[j]);
                }
            }
        }
        i = i + 1;
    }
    ops
}

/// The options the drawer renders with: no overflow checks, no maximum size, and columns four
/// columns apart.
pub open spec fn drawing_options() -> RenderEngineOptions {
    RenderEngineOptions {
        validate_overflows: false,
        max_size: MaxSize {
            max_columns: u16::MAX,
            max_columns_alignment: MaxColumnsAlignment::Center,
            max_rows: u16::MAX,
            max_rows_alignment: MaxRowsAlignment::Center,
        },
        column_layout_margin: 4,
    }
}

/// What a fresh engine keeps: the drawing area of the window, no colors, and the cursor's row
/// as the lowest row drawn on.
pub open spec fn fresh_state(window: WindowSize, options: RenderEngineOptions, row: u16) -> EngineState {
    EngineState {
        rects: seq![starting_rect_spec(window, options)],
        colors: Colors { background: None, foreground: None },
        max_modified_row: row,
        layout: LayoutView::Default,
    }
}

/// Whether the commands sent after `before` render the operations in a window, starting with
/// the cursor in `row`, with the drawing options: for some rows the cursor was in before each
/// operation, they do what the render's outcome says.
pub open spec fn drawn(
    before: Seq<TerminalCommand>,
    after: Seq<TerminalCommand>,
    window: WindowSize,
    row: u16,
    ops: Seq<RenderOperation>,
    r: Result<(), RenderError>,
) -> bool {
    exists|rows: Seq<u16>, prefix: Text, state: EngineState|
        {
            &&& rows.len() == ops.len() + 1
            &&& prefix.content@ == Seq::<char>::empty()
            &&& prefix.style == TextStyle::plain()
            &&& #[trigger] performs(
                before,
                after,
                state,
                r,
                render_outcome(fresh_state(window, drawing_options(), row), drawing_options(), &prefix, rows, ops),
            )
        }
}

/// Steps sent from nothing are sent after anything sent before.
proof fn lemma_sent_after(before: Seq<TerminalCommand>, sent: Seq<TerminalCommand>, steps: Seq<DrawStep>)
    ensures
        sent_steps(Seq::empty(), sent, steps) ==> sent_steps(before, before + sent, steps),
        sent_some_steps(Seq::empty(), sent, steps) ==> sent_some_steps(before, before + sent, steps),
{
    assert((before + sent).take(before.len() as int) =~= before);
    assert((before + sent).skip(before.len() as int) =~= sent);
    assert(sent.skip(0) =~= sent);
    if sent_some_steps(Seq::empty(), sent, steps) {
        let k = choose|k: int| 1 <= k <= steps.len() && sent_steps(Seq::empty(), sent, #[trigger] steps.take(k));
        assert(sent_steps(before, before + sent, steps.take(k)));
    }
}

/// Draws on a terminal.
pub struct TerminalDrawer<W: TerminalWrite> {
    pub terminal: Terminal<W>,
    /// The commands sent so far.
    pub sent: Ghost<Seq<TerminalCommand>>,
}

impl<W: TerminalWrite> TerminalDrawer<W> {
    /// A drawer over a handle, which is prepared first.
    pub fn new(handle: W) -> (r: Result<Self, IoError>)
        ensures
            r matches Ok(d) ==> d.sent@ == Seq::<TerminalCommand>::empty(),
    {
        match Terminal::new(handle) {
            Ok(terminal) => Ok(TerminalDrawer { terminal, sent: Ghost(Seq::empty()) }),
            Err(e) => Err(e),
        }
    }

    /// Renders operations in a window.
    pub fn render_operations(&mut self, window: WindowSize, operations: &Vec<RenderOperation>) -> (r: Result<(), RenderError>)
        requires
            window.columns < u16::MAX,
            forall|i: int| 0 <= i < operations@.len() ==> operation_renderable(#[trigger] operations@[i]),
        ensures
            drawn(
                old(self).sent@,
                final(self).sent@,
                window,
                old(self).terminal.cursor_state().cursor_row,
                operations@,
                r,
            ),
    {
        let options = RenderEngineOptions::default();
        let mut engine = RenderEngine::new(&self.terminal, window, options);
        let ghost start = engine;
        let r = engine.render(&mut self.terminal, operations);
        proof {
            let rows = choose|rows: Seq<u16>| rendered_with_rows(&start, &engine, operations@, r, rows);
            let before = self.sent@;
            self.sent = Ghost(before + engine.sent@);
            let outcome = render_outcome(start.state(), start.options, &start.empty_prefix, rows, operations@);
            lemma_sent_after(before, engine.sent@, outcome.steps);
            assert(performs(before, self.sent@, engine.state(), r, outcome));
        }
        r
    }

    /// Renders an error.
    pub fn render_error(&mut self, message: &str, source: &ErrorSource, window: WindowSize) -> (r: Result<(), RenderError>)
        requires
            window.columns < u16::MAX,
        ensures
            exists|ops: Seq<RenderOperation>|
                shows_error(ops, message@, *source, window.rows) && #[trigger] drawn(
                    old(self).sent@,
                    final(self).sent@,
                    window,
                    old(self).terminal.cursor_state().cursor_row,
                    ops,
                    r,
                ),
    {
        let operations = error_operations(message, source, window.rows);
        let r = self.render_operations(window, &operations);
        proof {
            assert(shows_error(operations@, message@, *source, window.rows));
        }
        r
    }

    /// Renders the slide index of a presentation.
    pub fn render_slide_index(&mut self, presentation: &Presentation, window: WindowSize) -> (r: Result<(), RenderError>)
        requires
            window.columns < u16::MAX,
            forall|i: int|
                0 <= i < presentation.modals.slide_index@.len() ==> operation_renderable(
                    #[trigger] presentation.modals.slide_index@[i],
                ),
        ensures
            drawn(
                old(self).sent@,
                final(self).sent@,
                window,
                old(self).terminal.cursor_state().cursor_row,
                presentation.modals.slide_index@,
                r,
            ),
    {
        self.render_operations(window, &presentation.modals.slide_index)
    }

    /// Renders the key bindings of a presentation.
    pub fn render_key_bindings(&mut self, presentation: &Presentation, window: WindowSize) -> (r: Result<(), RenderError>)
        requires
            window.columns < u16::MAX,
            forall|i: int|
                0 <= i < presentation.modals.bindings@.len() ==> operation_renderable(
                    #[trigger] presentation.modals.bindings@[i],
                ),
        ensures
            drawn(
                old(self).sent@,
                final(self).sent@,
                window,
                old(self).terminal.cursor_state().cursor_row,
                presentation.modals.bindings@,
                r,
            ),
    {
        self.render_operations(window, &presentation.modals.bindings)
    }
}

/// Why a presentation doesn't fit the screen.
#[derive(Debug)]
pub enum OverflowError {
    /// A slide, counted from 1, is wider than the screen.
    Horizontal(usize),
    /// A slide, counted from 1, is taller than the screen.
    Vertical(usize),
    /// A slide could not be rendered.
    Render(RenderError),
}

/// A terminal handle that sends commands nowhere.
pub struct NullWrite;

impl TerminalWrite for NullWrite {
    /// Preparing nothing always succeeds.
    fn init(&mut self) -> (r: Result<(), IoError>)
        ensures
            r is Ok,
    {
        Ok(())
    }

    fn deinit(&mut self) {
    }

    /// Sending a command nowhere always succeeds.
    fn send(&mut self, command: &TerminalCommand, rows: u16) -> (r: Result<(), IoError>)
        ensures
            r is Ok,
    {
        Ok(())
    }
}

/// The options slides are checked with: those of drawing, with overflows checked.
pub open spec fn validation_options() -> RenderEngineOptions {
    RenderEngineOptions { validate_overflows: true, ..drawing_options() }
}

/// What rendering some operations on a fresh terminal, checking overflows, gives for some rows
/// the cursor was in before each operation.
pub open spec fn checked_render(
    window: WindowSize,
    ops: Seq<RenderOperation>,
    rows: Seq<u16>,
    prefix: Text,
) -> Result<EngineState, crate::engine::RenderFailure> {
    render_outcome(fresh_state(window, validation_options(), 0), validation_options(), &prefix, rows, ops).result
}

/// Whether a text is an empty plain prefix.
pub open spec fn empty_prefix(prefix: Text) -> bool {
    prefix.content@ == Seq::<char>::empty() && prefix.style == TextStyle::plain()
}

/// A slide renders without overflowing.
pub open spec fn renders_within(window: WindowSize, ops: Seq<RenderOperation>) -> bool {
    exists|rows: Seq<u16>, prefix: Text|
        rows.len() == ops.len() + 1 && empty_prefix(prefix) && #[trigger] checked_render(
            window,
            ops,
            rows,
            prefix,
        ) is Ok
}

/// A slide fails to render with the given failure.
pub open spec fn fails_with(
    window: WindowSize,
    ops: Seq<RenderOperation>,
    f: crate::engine::RenderFailure,
) -> bool {
    exists|rows: Seq<u16>, prefix: Text|
        rows.len() == ops.len() + 1 && empty_prefix(prefix) && #[trigger] checked_render(
            window,
            ops,
            rows,
            prefix,
        ) == Err::<EngineState, crate::engine::RenderFailure>(f)
}

/// The slide at `k` is the first that could not be rendered, failing as the error says
/// when it is not an input or output error.
pub open spec fn render_fails_at(
    window: WindowSize,
    slides: Seq<Seq<RenderOperation>>,
    k: int,
    e: RenderError,
) -> bool {
    &&& 0 <= k < slides.len()
    &&& forall|i: int| 0 <= i < k ==> renders_within(window, #[trigger] slides[i])
    &&& failure_of(e) matches Some(f) ==> fails_with(window, slides[k], f)
}

/// The operations of some slides.
pub open spec fn slides_view(slides: Seq<Vec<RenderOperation>>) -> Seq<Seq<RenderOperation>> {
    slides.map_values(|s: Vec<RenderOperation>| s@)
}

/// Checks that each slide, given by its operations, fits the screen: renders each on a terminal
/// that sends commands nowhere, checking overflows, and reports the first slide that doesn't.
pub fn validate_overflows(slides: &Vec<Vec<RenderOperation>>, window: WindowSize) -> (r: Result<(), OverflowError>)
    requires
        window.columns < u16::MAX,
        forall|i: int, j: int|
            0 <= i < slides@.len() && 0 <= j < slides@[i]@.len() ==> operation_renderable(
                #[trigger] slides@[i]@[j],
            ),
    ensures
        r is Ok ==> forall|i: int|
            0 <= i < slides@.len() ==> renders_within(window, #[trigger] slides_view(slides@)[i]),
        r matches Err(OverflowError::Horizontal(k)) ==> 1 <= k <= slides@.len() && fails_with(
            window,
            slides_view(slides@)[k - 1],
            crate::engine::RenderFailure::HorizontalOverflow,
        ) && forall|i: int|
            0 <= i < k - 1 ==> renders_within(window, #[trigger] slides_view(slides@)[i]),
        r matches Err(OverflowError::Vertical(k)) ==> 1 <= k <= slides@.len() && fails_with(
            window,
            slides_view(slides@)[k - 1],
            crate::engine::RenderFailure::VerticalOverflow,
        ) && forall|i: int|
            0 <= i < k - 1 ==> renders_within(window, #[trigger] slides_view(slides@)[i]),
        r matches Err(OverflowError::Render(e)) ==> exists|k: int|
            #[trigger] render_fails_at(window, slides_view(slides@), k, e),
{
    let mut index: usize = 0;
    while index < slides.len()
        invariant
            index <= slides@.len(),
            window.columns < u16::MAX,
            forall|i: int, j: int|
                0 <= i < slides@.len() && 0 <= j < slides@[i]@.len() ==> operation_renderable(
                    #[trigger] slides@[i]@[j],
                ),
            forall|i: int|
                0 <= i < index ==> renders_within(window, #[trigger] slides_view(slides@)[i]),
        decreases slides@.len() - index,
    {
        let mut terminal = match Terminal::new(NullWrite) {
            Ok(t) => t,
            Err(e) => {
                proof {
                    assert(render_fails_at(
                        window,
                        slides_view(slides@),
                        index as int,
                        RenderError::Io(e),
                    ));
                }
                return Err(OverflowError::Render(RenderError::Io(e)));
            },
        };
        let options = RenderEngineOptions {
            validate_overflows: true,
            max_size: MaxSize::default(),
            column_layout_margin: 4,
        };
        let ops = &slides[index];
        let mut engine = RenderEngine::new(&terminal, window, options);
        let ghost start = engine;
        proof {
            assert forall|j: int| 0 <= j < ops@.len() implies operation_renderable(#[trigger] ops@[j]) by {
                assert(operation_renderable(slides@[index as int]@[j]));
            }
        }
        let result = engine.render(&mut terminal, ops);
        proof {
            let rows = choose|rows: Seq<u16>| rendered_with_rows(&start, &engine, ops@, result, rows);
            assert(slides_view(slides@)[index as int] == ops@);
            assert(start.state() == fresh_state(window, validation_options(), 0));
            assert(checked_render(window, ops@, rows, start.empty_prefix) == render_outcome(
                start.state(),
                start.options,
                &start.empty_prefix,
                rows,
                ops@,
            ).result);
        }
        match result {
            Ok(()) => {},
            Err(RenderError::HorizontalOverflow) => {
                return Err(OverflowError::Horizontal(index + 1));
            },
            Err(RenderError::VerticalOverflow) => {
                return Err(OverflowError::Vertical(index + 1));
            },
            Err(e) => {
                proof {
                    assert(render_fails_at(window, slides_view(slides@), index as int, e));
                }
                return Err(OverflowError::Render(e));
            },
        }
        index = index + 1;
    }
    Ok(())
}

} // verus!
