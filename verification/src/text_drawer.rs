//! Drawing a line of text: word wrapping it into the space a layout gives, with a prefix and,
//! optionally, a block of background color around it.
use crate::layout::Positioning;
use crate::options::RenderError;
use crate::properties::{sat_add, sat_sub};
use crate::style::{Color, Colors, TextStyle};
use crate::text::{cap_usize, str_display_width, Text, WeightedLine};
use crate::text_util::repeat_char;
use crate::virt::{TerminalCommand, TextProperties};
use crate::wrap::{text_parts, wrapped_lines};
use vstd::prelude::*;

verus! {

/// What a drawing command does, as the contracts speak of it.
pub enum DrawStep {
    MoveToColumn(u16),
    MoveDown(u16),
    Print(Seq<char>, TextStyle),
    SetColors(Colors),
    SetBackgroundColor(Color),
    MoveTo(u16, u16),
    MoveToRow(u16),
    MoveToNextLine,
    ClearScreen,
    BeginUpdate,
    EndUpdate,
    Flush,
    SetCursorBoundaries(u16),
}

/// What a command does.
pub open spec fn command_step(command: TerminalCommand) -> DrawStep {
    match command {
        TerminalCommand::MoveToColumn(column) => DrawStep::MoveToColumn(column),
        TerminalCommand::MoveDown(amount) => DrawStep::MoveDown(amount),
        TerminalCommand::PrintText { content, style, .. } => DrawStep::Print(content@, style),
        TerminalCommand::SetColors(colors) => DrawStep::SetColors(colors),
        TerminalCommand::SetBackgroundColor(color) => DrawStep::SetBackgroundColor(color),
        TerminalCommand::MoveTo { column, row } => DrawStep::MoveTo(column, row),
        TerminalCommand::MoveToRow(row) => DrawStep::MoveToRow(row),
        TerminalCommand::MoveToNextLine => DrawStep::MoveToNextLine,
        TerminalCommand::ClearScreen => DrawStep::ClearScreen,
        TerminalCommand::BeginUpdate => DrawStep::BeginUpdate,
        TerminalCommand::EndUpdate => DrawStep::EndUpdate,
        TerminalCommand::Flush => DrawStep::Flush,
        TerminalCommand::SetCursorBoundaries { rows } => DrawStep::SetCursorBoundaries(rows),
    }
}

/// Whether a list of commands does the given steps.
pub open spec fn commands_do(commands: Seq<TerminalCommand>, steps: Seq<DrawStep>) -> bool {
    commands.len() == steps.len() && forall|i: int|
        0 <= i < commands.len() ==> command_step(#[trigger] commands[i]) == steps[i]
}

/// Draws text on the screen, word wrapping it to fit.
pub struct TextDrawer<'a> {
    pub prefix: &'a Text,
    pub right_padding_length: u16,
    pub line: &'a WeightedLine,
    pub positioning: Positioning,
    pub prefix_width: u16,
    pub default_colors: Colors,
    pub draw_block: bool,
    pub block_color: Option<Color>,
    pub repeat_prefix: bool,
    pub center_newlines: bool,
}

/// `n` spaces.
pub open spec fn spaces(n: nat) -> Seq<char> {
    Seq::new(n, |_i: int| ' ')
}

/// The columns a piece of a wrapped line takes, capped at `usize::MAX`.
pub open spec fn piece_width(piece: (Seq<char>, TextStyle)) -> usize {
    cap_usize(str_display_width(piece.0) as nat * piece.1.size as nat)
}

/// The columns a wrapped line takes, counted as drawing it counts them: each piece's width cut
/// to 16 bits, added up saturating.
pub open spec fn drawn_length(pieces: Seq<(Seq<char>, TextStyle)>) -> u16
    decreases pieces.len(),
{
    if pieces.len() == 0 {
        0
    } else {
        sat_add(drawn_length(pieces.drop_last()), piece_width(pieces.last()) as u16)
    }
}

/// The columns a wrapped line takes, added up and capped at `usize::MAX`.
pub open spec fn total_width(pieces: Seq<(Seq<char>, TextStyle)>) -> usize
    decreases pieces.len(),
{
    if pieces.len() == 0 {
        0
    } else {
        cap_usize(total_width(pieces.drop_last()) as nat + piece_width(pieces.last()) as nat)
    }
}

impl<'a> TextDrawer<'a> {
    /// The font size of the line being drawn.
    pub open spec fn font_size(&self) -> u8 {
        self.line.font_size_spec()
    }

    /// The lines that the text wraps into.
    pub open spec fn lines(&self) -> Seq<Seq<(Seq<char>, TextStyle)>> {
        wrapped_lines(self.line.chunks@, self.positioning.max_line_length as nat)
    }

    /// The steps that fill the rest of a line, `length` columns long, with the block's
    /// background.
    pub open spec fn background_steps(&self, length: u16) -> Seq<DrawStep> {
        let remaining = sat_add(
            sat_sub(self.positioning.max_line_length, length),
            self.right_padding_length,
        );
        if self.draw_block && remaining > 0 {
            let color = match self.block_color {
                Some(c) => seq![DrawStep::SetBackgroundColor(c)],
                None => Seq::empty(),
            };
            color + seq![
                DrawStep::Print(
                    spaces((remaining / self.font_size() as u16) as nat),
                    TextStyle { size: self.font_size(), ..TextStyle::plain() },
                ),
            ]
        } else {
            Seq::empty()
        }
    }

    /// The steps that redo the prefix on a wrapped line: the prefix itself when it repeats,
    /// else blank space as wide as it in the block's color.
    pub open spec fn wrapped_prefix_steps(&self) -> Seq<DrawStep> {
        if self.prefix_width == 0 {
            Seq::empty()
        } else if self.repeat_prefix {
            seq![DrawStep::Print(self.prefix.content@, self.prefix.style)]
        } else {
            let color = match self.block_color {
                Some(c) => seq![DrawStep::SetBackgroundColor(c)],
                None => Seq::empty(),
            };
            color + seq![
                DrawStep::Print(
                    spaces((self.prefix_width / self.font_size() as u16) as nat),
                    TextStyle { size: self.font_size(), ..TextStyle::plain() },
                ),
            ]
        }
    }

    /// The column a wrapped line starts at: centered in the space left when asked to.
    pub open spec fn wrapped_start_column(&self, pieces: Seq<(Seq<char>, TextStyle)>) -> u16 {
        if self.center_newlines {
            let extra = sat_sub(self.positioning.max_line_length, total_width(pieces) as u16);
            (self.positioning.start_column + extra / 2) as u16
        } else {
            self.positioning.start_column
        }
    }

    /// The steps that print the pieces of a line, re-applying the default colors after any
    /// styled piece.
    pub open spec fn pieces_steps(&self, pieces: Seq<(Seq<char>, TextStyle)>) -> Seq<DrawStep>
        decreases pieces.len(),
    {
        if pieces.len() == 0 {
            Seq::empty()
        } else {
            let last = pieces.last();
            let colors = if last.1 != TextStyle::plain() {
                seq![DrawStep::SetColors(self.default_colors)]
            } else {
                Seq::empty()
            };
            self.pieces_steps(pieces.drop_last()) + seq![DrawStep::Print(last.0, last.1)] + colors
        }
    }

    /// The steps for the `i`-th wrapped line: for all but the first, finish the previous line's
    /// block, move down by the font size, move to the line's start and redo the prefix; then
    /// print its pieces.
    pub open spec fn line_steps(&self, i: int) -> Seq<DrawStep> {
        let lines = self.lines();
        let before = if i > 0 {
            self.background_steps(drawn_length(lines[i - 1])) + seq![
                DrawStep::MoveDown(self.font_size() as u16),
                DrawStep::MoveToColumn(self.wrapped_start_column(lines[i])),
            ] + self.wrapped_prefix_steps()
        } else {
            Seq::empty()
        };
        before + self.pieces_steps(lines[i])
    }

    /// The steps for the first `k` wrapped lines.
    pub open spec fn lines_steps(&self, k: int) -> Seq<DrawStep>
        decreases k,
    {
        if k <= 0 {
            Seq::empty()
        } else {
            self.lines_steps(k - 1) + self.line_steps(k - 1)
        }
    }

    /// Every step of drawing: move to the start column and print the prefix, draw each wrapped
    /// line, then finish the last line's block.
    pub open spec fn draw_steps(&self) -> Seq<DrawStep> {
        let lines = self.lines();
        let head = seq![DrawStep::MoveToColumn(self.positioning.start_column)] + if self.prefix_width
            > 0 {
            seq![DrawStep::Print(self.prefix.content@, self.prefix.style)]
        } else {
            Seq::empty()
        };
        let last_length = if lines.len() > 0 {
            drawn_length(lines.last())
        } else {
            0
        };
        head + self.lines_steps(lines.len() as int) + self.background_steps(last_length)
    }
}

/// The columns that a line takes with its prefix and its padding, capped as the drawer caps
/// them.
pub open spec fn drawn_text_length(prefix: Text, right_padding_length: u16, line: WeightedLine) -> u16 {
    cap_usize(
        cap_usize(crate::text::chunks_width(line.chunks@)) as nat + cap_usize(
            crate::text::text_width(prefix),
        ) as nat + right_padding_length as nat,
    ) as u16
}

/// Whether a line doesn't fit and the space is too small to wrap it in.
pub open spec fn too_small(
    prefix: Text,
    right_padding_length: u16,
    line: WeightedLine,
    positioning: Positioning,
    minimum_line_length: u16,
) -> bool {
    drawn_text_length(prefix, right_padding_length, line) > positioning.max_line_length
        && positioning.max_line_length <= minimum_line_length
}

/// The drawer that `TextDrawer::new` gives when the line can be drawn: the space for the text
/// is what's left after the prefix and the padding.
pub open spec fn drawer_spec<'a>(
    prefix: &'a Text,
    right_padding_length: u16,
    line: &'a WeightedLine,
    positioning: Positioning,
    default_colors: Colors,
) -> TextDrawer<'a> {
    let prefix_width = cap_usize(crate::text::text_width(*prefix)) as u16;
    TextDrawer {
        prefix,
        right_padding_length,
        line,
        positioning: Positioning {
            max_line_length: sat_sub(
                sat_sub(positioning.max_line_length, prefix_width),
                right_padding_length,
            ),
            start_column: positioning.start_column,
        },
        prefix_width,
        default_colors,
        draw_block: false,
        block_color: None,
        repeat_prefix: false,
        center_newlines: false,
    }
}

impl<'a> TextDrawer<'a> {
    /// A drawer for a line after a prefix, with some padding on the right, in the space that
    /// `positioning` gives. Fails when the text doesn't fit and the space is no larger than
    /// `minimum_line_length`; otherwise the space for the text is what's left after the prefix
    /// and the padding.
    pub fn new(
        prefix: &'a Text,
        right_padding_length: u16,
        line: &'a WeightedLine,
        positioning: Positioning,
        default_colors: &Colors,
        minimum_line_length: u16,
    ) -> (r: Result<Self, RenderError>)
        ensures
            too_small(*prefix, right_padding_length, *line, positioning, minimum_line_length) ==> r matches Err(
                RenderError::TerminalTooSmall,
            ),
            !too_small(*prefix, right_padding_length, *line, positioning, minimum_line_length) ==> (
            r matches Ok(d) && d == drawer_spec(
                prefix,
                right_padding_length,
                line,
                positioning,
                *default_colors,
            )),
    {
        let line_width = line.width();
        let prefix_width_full = prefix.width();
        let text_length = match line_width.checked_add(prefix_width_full) {
            Some(v) => match v.checked_add(right_padding_length as usize) {
                Some(w) => w,
                None => usize::MAX,
            },
            None => usize::MAX,
        } as u16;
        if text_length > positioning.max_line_length && positioning.max_line_length
            <= minimum_line_length {
            Err(RenderError::TerminalTooSmall)
        } else {
            let prefix_width = prefix_width_full as u16;
            let positioning = Positioning {
                max_line_length: positioning.max_line_length.saturating_sub(
                    prefix_width,
                ).saturating_sub(right_padding_length),
                start_column: positioning.start_column,
            };
            Ok(TextDrawer {
                prefix,
                right_padding_length,
                line,
                positioning,
                prefix_width,
                default_colors: *default_colors,
                draw_block: false,
                block_color: None,
                repeat_prefix: false,
                center_newlines: false,
            })
        }
    }

    /// Draws a block of background color around the text, in the given color.
    pub fn with_surrounding_block(self, block_color: Option<Color>) -> (d: Self)
        ensures
            d == (TextDrawer { draw_block: true, block_color, ..self }),
    {
        TextDrawer { draw_block: true, block_color, ..self }
    }

    /// Whether to print the prefix again on each wrapped line.
    pub fn repeat_prefix_on_wrap(self, value: bool) -> (d: Self)
        ensures
            d == (TextDrawer { repeat_prefix: value, ..self }),
    {
        TextDrawer { repeat_prefix: value, ..self }
    }

    /// Whether to center each wrapped line in the space.
    pub fn center_newlines(self, value: bool) -> (d: Self)
        ensures
            d == (TextDrawer { center_newlines: value, ..self }),
    {
        TextDrawer { center_newlines: value, ..self }
    }
}

/// What the pieces of a line hold.
pub open spec fn pieces_view(pieces: Seq<Text>) -> Seq<(Seq<char>, TextStyle)> {
    pieces.map_values(|t: Text| text_parts(t))
}

/// Commands that do some steps, followed by commands that do others, do both in turn.
pub proof fn lemma_commands_concat(
    a: Seq<TerminalCommand>,
    b: Seq<TerminalCommand>,
    sa: Seq<DrawStep>,
    sb: Seq<DrawStep>,
)
    requires
        commands_do(a, sa),
        commands_do(b, sb),
    ensures
        commands_do(a + b, sa + sb),
{
    assert forall|i: int| 0 <= i < (a + b).len() implies command_step(#[trigger] (a + b)[i]) == (sa
        + sb)[i] by {
        if i < a.len() {
            assert((a + b)[i] == a[i]);
        } else {
            assert((a + b)[i] == b[i - a.len()]);
        }
    }
}

/// A command that prints text in a style.
fn print_command(content: String, style: TextStyle) -> (c: TerminalCommand)
    ensures
        command_step(c) == DrawStep::Print(content@, style),
{
    TerminalCommand::PrintText { content, style, properties: TextProperties { height: 1 } }
}

/// `n` spaces.
fn spaces_string(n: u16) -> (s: String)
    ensures
        s@ == spaces(n as nat),
{
    let s = repeat_char(' ', n as usize);
    assert(s@ =~= spaces(n as nat));
    s
}

impl<'a> TextDrawer<'a> {
    /// Whether drawing divides by the font size, which must then be positive.
    pub open spec fn divides_by_font_size(&self) -> bool {
        self.draw_block || (self.prefix_width > 0 && !self.repeat_prefix && self.lines().len() > 1)
    }

    /// Whether every centered wrapped line starts within the screen's coordinates.
    pub open spec fn centering_fits(&self) -> bool {
        self.center_newlines ==> forall|i: int|
            1 <= i < self.lines().len() ==> self.positioning.start_column + sat_sub(
                self.positioning.max_line_length,
                total_width(#[trigger] self.lines()[i]) as u16,
            ) / 2 <= u16::MAX
    }

    fn background_commands(&self, length: u16) -> (v: Vec<TerminalCommand>)
        requires
            self.draw_block ==> self.font_size() >= 1,
        ensures
            commands_do(v@, self.background_steps(length)),
    {
        let mut v: Vec<TerminalCommand> = Vec::new();
        let remaining = self.positioning.max_line_length.saturating_sub(length).saturating_add(
            self.right_padding_length,
        );
        if self.draw_block && remaining > 0 {
            let font_size = self.line.font_size();
            if let Some(color) = self.block_color {
                v.push(TerminalCommand::SetBackgroundColor(color));
            }
            let text = spaces_string(remaining / font_size as u16);
            let style = TextStyle::default().size(font_size);
            v.push(print_command(text, style));
        }
        proof {
            let steps = self.background_steps(length);
            assert(v@.len() == steps.len());
            assert forall|i: int| 0 <= i < v@.len() implies command_step(#[trigger] v@[i])
                == steps[i] by {}
        }
        v
    }

    fn wrapped_prefix_commands(&self) -> (v: Vec<TerminalCommand>)
        requires
            self.prefix_width > 0 && !self.repeat_prefix ==> self.font_size() >= 1,
        ensures
            commands_do(v@, self.wrapped_prefix_steps()),
    {
        let mut v: Vec<TerminalCommand> = Vec::new();
        if self.prefix_width > 0 {
            if self.repeat_prefix {
                let content = self.prefix.content.clone();
                v.push(print_command(content, self.prefix.style));
            } else {
                let font_size = self.line.font_size();
                if let Some(color) = self.block_color {
                    v.push(TerminalCommand::SetBackgroundColor(color));
                }
                let text = spaces_string(self.prefix_width / font_size as u16);
                let style = TextStyle::default().size(font_size);
                v.push(print_command(text, style));
            }
        }
        proof {
            let steps = self.wrapped_prefix_steps();
            assert(v@.len() == steps.len());
            assert forall|i: int| 0 <= i < v@.len() implies command_step(#[trigger] v@[i])
                == steps[i] by {}
        }
        v
    }

    fn pieces_commands(&self, pieces: &Vec<Text>) -> (v: Vec<TerminalCommand>)
        ensures
            commands_do(v@, self.pieces_steps(pieces_view(pieces@))),
    {
        let mut v: Vec<TerminalCommand> = Vec::new();
        let mut j: usize = 0;
        while j < pieces.len()
            invariant
                j <= pieces@.len(),
                commands_do(v@, self.pieces_steps(pieces_view(pieces@.take(j as int)))),
            decreases pieces@.len() - j,
        {
            let piece = &pieces[j];
            let ghost before = v@;
            let ghost taken = pieces_view(pieces@.take(j + 1));
            proof {
                assert(taken.drop_last() =~= pieces_view(pieces@.take(j as int)));
                assert(taken.last() == text_parts(*piece));
            }
            let mut added: Vec<TerminalCommand> = Vec::new();
            added.push(print_command(piece.content.clone(), piece.style));
            if piece.style != TextStyle::default() {
                added.push(TerminalCommand::SetColors(self.default_colors));
            }
            proof {
                let colors = if piece.style != TextStyle::plain() {
                    seq![DrawStep::SetColors(self.default_colors)]
                } else {
                    Seq::<DrawStep>::empty()
                };
                let steps = seq![DrawStep::Print(piece.content@, piece.style)] + colors;
                assert(commands_do(added@, steps)) by {
                    assert forall|i: int| 0 <= i < added@.len() implies command_step(
                        #[trigger] added@[i],
                    ) == steps[i] by {}
                }
                lemma_commands_concat(before, added@, self.pieces_steps(pieces_view(pieces@.take(j as int))), steps);
                assert(self.pieces_steps(taken) =~= self.pieces_steps(pieces_view(pieces@.take(j as int))) + steps);
            }
            v.append(&mut added);
            j += 1;
        }
        assert(pieces@.take(pieces@.len() as int) =~= pieces@);
        v
    }

    fn drawn_length_of(pieces: &Vec<Text>) -> (l: u16)
        ensures
            l == drawn_length(pieces_view(pieces@)),
    {
        let mut length: u16 = 0;
        let mut j: usize = 0;
        while j < pieces.len()
            invariant
                j <= pieces@.len(),
                length == drawn_length(pieces_view(pieces@.take(j as int))),
            decreases pieces@.len() - j,
        {
            let w = pieces[j].width();
            proof {
                let taken = pieces_view(pieces@.take(j + 1));
                assert(taken.drop_last() =~= pieces_view(pieces@.take(j as int)));
                assert(taken.last() == text_parts(pieces@[j as int]));
            }
            length = length.saturating_add(w as u16);
            j += 1;
        }
        assert(pieces@.take(pieces@.len() as int) =~= pieces@);
        length
    }

    fn total_width_of(pieces: &Vec<Text>) -> (w: usize)
        ensures
            w == total_width(pieces_view(pieces@)),
    {
        let mut total: usize = 0;
        let mut j: usize = 0;
        while j < pieces.len()
            invariant
                j <= pieces@.len(),
                total == total_width(pieces_view(pieces@.take(j as int))),
            decreases pieces@.len() - j,
        {
            let w = pieces[j].width();
            proof {
                let taken = pieces_view(pieces@.take(j + 1));
                assert(taken.drop_last() =~= pieces_view(pieces@.take(j as int)));
                assert(taken.last() == text_parts(pieces@[j as int]));
            }
            total = match total.checked_add(w) {
                Some(v) => v,
                None => usize::MAX,
            };
            j += 1;
        }
        assert(pieces@.take(pieces@.len() as int) =~= pieces@);
        total
    }

    /// The commands that draw the text: move to the start column and print the prefix, then
    /// each wrapped line, the ones after the first one font size further down, then finish the
    /// last line's block.
    pub fn draw(&self) -> (commands: Vec<TerminalCommand>)
        requires
            self.divides_by_font_size() ==> self.font_size() >= 1,
            self.centering_fits(),
        ensures
            commands_do(commands@, self.draw_steps()),
    {
        let lines = self.line.split(self.positioning.max_line_length);
        let ghost spec_lines = self.lines();
        proof {
            assert forall|i: int| 0 <= i < lines@.len() implies pieces_view(#[trigger] lines@[i]@)
                == spec_lines[i] by {
                assert(pieces_view(lines@[i]@) =~= spec_lines[i]);
            }
        }
        let font_size = self.line.font_size();
        let mut commands: Vec<TerminalCommand> = Vec::new();
        commands.push(TerminalCommand::MoveToColumn(self.positioning.start_column));
        if self.prefix_width > 0 {
            commands.push(print_command(self.prefix.content.clone(), self.prefix.style));
        }
        let ghost head = seq![DrawStep::MoveToColumn(self.positioning.start_column)] + if self.prefix_width
            > 0 {
            seq![DrawStep::Print(self.prefix.content@, self.prefix.style)]
        } else {
            Seq::<DrawStep>::empty()
        };
        proof {
            assert(commands_do(commands@, head)) by {
                assert forall|i: int| 0 <= i < commands@.len() implies command_step(
                    #[trigger] commands@[i],
                ) == head[i] by {}
            }
            assert(head + self.lines_steps(0) =~= head);
        }
        let mut line_length: u16 = 0;
        let mut i: usize = 0;
        while i < lines.len()
            invariant
                i <= lines@.len(),
                lines@.len() == spec_lines.len(),
                spec_lines == self.lines(),
                forall|k: int| 0 <= k < lines@.len() ==> pieces_view(#[trigger] lines@[k]@) == spec_lines[k],
                font_size == self.font_size(),
                self.divides_by_font_size() ==> self.font_size() >= 1,
                self.centering_fits(),
                commands_do(commands@, head + self.lines_steps(i as int)),
                i > 0 ==> line_length == drawn_length(spec_lines[i - 1]),
                i == 0 ==> line_length == 0,
            decreases lines@.len() - i,
        {
            let line = &lines[i];
            let ghost before = commands@;
            let ghost spec_before = if i > 0 {
                self.background_steps(drawn_length(spec_lines[i - 1])) + seq![
                    DrawStep::MoveDown(self.font_size() as u16),
                    DrawStep::MoveToColumn(self.wrapped_start_column(spec_lines[i as int])),
                ] + self.wrapped_prefix_steps()
            } else {
                Seq::<DrawStep>::empty()
            };
            let mut added: Vec<TerminalCommand> = Vec::new();
            if i > 0 {
                let mut background = self.background_commands(line_length);
                let ghost bg = background@;
                added.append(&mut background);
                let start_column = if self.center_newlines {
                    let line_width = Self::total_width_of(line) as u16;
                    let extra = self.positioning.max_line_length.saturating_sub(line_width);
                    proof {
                        assert(self.positioning.start_column + sat_sub(
                            self.positioning.max_line_length,
                            total_width(spec_lines[i as int]) as u16,
                        ) / 2 <= u16::MAX);
                    }
                    self.positioning.start_column + extra / 2
                } else {
                    self.positioning.start_column
                };
                let mut moves: Vec<TerminalCommand> = Vec::new();
                moves.push(TerminalCommand::MoveDown(font_size as u16));
                moves.push(TerminalCommand::MoveToColumn(start_column));
                let ghost mv = moves@;
                let ghost move_steps = seq![
                    DrawStep::MoveDown(self.font_size() as u16),
                    DrawStep::MoveToColumn(self.wrapped_start_column(spec_lines[i as int])),
                ];
                proof {
                    assert(commands_do(mv, move_steps)) by {
                        assert forall|k: int| 0 <= k < mv.len() implies command_step(#[trigger] mv[k])
                            == move_steps[k] by {}
                    }
                    lemma_commands_concat(
                        bg,
                        mv,
                        self.background_steps(drawn_length(spec_lines[i - 1])),
                        move_steps,
                    );
                }
                added.append(&mut moves);
                let mut prefix = self.wrapped_prefix_commands();
                let ghost pv = prefix@;
                proof {
                    lemma_commands_concat(
                        added@,
                        pv,
                        self.background_steps(drawn_length(spec_lines[i - 1])) + move_steps,
                        self.wrapped_prefix_steps(),
                    );
                }
                added.append(&mut prefix);
            }
            proof {
                if i == 0 {
                    assert(commands_do(added@, spec_before));
                }
            }
            let mut printed = self.pieces_commands(line);
            let ghost printed_view = printed@;
            proof {
                lemma_commands_concat(
                    added@,
                    printed_view,
                    spec_before,
                    self.pieces_steps(spec_lines[i as int]),
                );
                assert(spec_before + self.pieces_steps(spec_lines[i as int]) == self.line_steps(
                    i as int,
                ));
            }
            added.append(&mut printed);
            line_length = Self::drawn_length_of(line);
            let ghost added_view = added@;
            proof {
                lemma_commands_concat(
                    before,
                    added_view,
                    head + self.lines_steps(i as int),
                    self.line_steps(i as int),
                );
                assert(head + self.lines_steps(i as int) + self.line_steps(i as int) =~= head
                    + self.lines_steps(i + 1));
            }
            commands.append(&mut added);
            i += 1;
        }
        let mut background = self.background_commands(line_length);
        let ghost bg = background@;
        proof {
            let last_length = if spec_lines.len() > 0 {
                drawn_length(spec_lines.last())
            } else {
                0
            };
            assert(line_length == last_length);
            lemma_commands_concat(
                commands@,
                bg,
                head + self.lines_steps(spec_lines.len() as int),
                self.background_steps(last_length),
            );
        }
        commands.append(&mut background);
        commands
    }
}

} // verus!
