//! Building slides: the commands written in a presentation's comments, pauses and slide ends,
//! and column layouts.
use crate::operation::{MarginProperties, RenderOperation};
use crate::presentation::{HighlightMutator, Slide, SlideChunk};
use crate::diff::line_contents;
use crate::list::{list_item_prefix_text, ListItemType};
use crate::style::{flag_set, Colors, TextStyle, CODE_FLAG};
use crate::text::{Text, WeightedLine};
use crate::text_util::{lines_of, nth_line, occurs_at, str_chars, string_from_chars};
use crate::theme::{Alignment, Margin, PresentationTheme};
use vstd::prelude::*;

verus! {

/// How a comment asks text to be aligned.
#[derive(Clone, Copy, Debug, PartialEq, Eq, Structural)]
pub enum CommentCommandAlignment {
    Left,
    Center,
    Right,
}

/// A command written in a comment.
#[derive(Clone, Debug, PartialEq, Eq)]
pub enum CommentCommand {
    Alignment(CommentCommandAlignment),
    Column(usize),
    EndSlide,
    FontSize(u8),
    Include(String),
    IncrementalLists(bool),
    InitColumnLayout(Vec<u8>),
    JumpToMiddle,
    ListItemNewlines(u8),
    NewLine,
    NewLines(u32),
    NoFooter,
    Pause,
    ResetLayout,
    SkipSlide,
    SpeakerNote(String),
    SnippetOutput(String),
}

/// Where the slide is with respect to a column layout.
#[derive(Clone, Copy, Debug, PartialEq, Eq, Structural)]
pub enum LayoutState {
    Default,
    InLayout { columns_count: usize },
    InColumn { column: usize, columns_count: usize },
}

/// Why a presentation is invalid.
#[derive(Clone, Copy, Debug, PartialEq, Eq, Structural)]
pub enum InvalidPresentation {
    /// A column was entered with no layout defined.
    NoLayout,
    /// The column entered is the current one.
    AlreadyInColumn,
    /// The column entered is past the layout's last one.
    ColumnIndexTooLarge,
    /// A layout has no columns.
    EmptyLayout,
    /// A layout has a column with no width.
    ZeroSizedColumn,
    /// A font size is not between 1 and 7.
    InvalidFontSize,
    /// A comment is not a command and is not one to ignore.
    CommandParse,
    /// A snippet has an id but is not one to execute.
    SnippetIdNonExec,
    /// A snippet has the id of an earlier one.
    SnippetAlreadyExists,
}

/// The last element pushed into a slide.
#[derive(Clone, Copy, Debug, PartialEq, Eq, Structural)]
pub enum LastElement {
    /// None yet.
    Nothing,
    /// A list, whose last top level item had this index.
    List { last_index: usize },
    /// Another kind of element.
    Other,
}

/// What the slide being built keeps track of.
#[derive(Clone, Copy, Debug, PartialEq, Eq, Structural)]
pub struct SlideState {
    pub ignore_element_line_break: bool,
    pub ignore_footer: bool,
    pub needs_enter_column: bool,
    pub last_chunk_ended_in_list: bool,
    pub last_element: LastElement,
    pub incremental_lists: Option<bool>,
    pub list_item_newlines: Option<u8>,
    pub layout: LayoutState,
    pub font_size: Option<u8>,
    pub alignment: Option<Alignment>,
    pub skip_slide: bool,
}

/// The state of a slide that was just started.
pub open spec fn fresh_slide_state() -> SlideState {
    SlideState {
        ignore_element_line_break: false,
        ignore_footer: false,
        needs_enter_column: false,
        last_chunk_ended_in_list: false,
        last_element: LastElement::Nothing,
        incremental_lists: None,
        list_item_newlines: None,
        layout: LayoutState::Default,
        font_size: None,
        alignment: None,
        skip_slide: false,
    }
}

impl Default for SlideState {
    fn default() -> (s: Self)
        ensures
            s == fresh_slide_state(),
    {
        SlideState {
            ignore_element_line_break: false,
            ignore_footer: false,
            needs_enter_column: false,
            last_chunk_ended_in_list: false,
            last_element: LastElement::Nothing,
            incremental_lists: None,
            list_item_newlines: None,
            layout: LayoutState::Default,
            font_size: None,
            alignment: None,
            skip_slide: false,
        }
    }
}

/// What every slide starts with: the theme's colors and margins, and the footer's height;
/// and how the theme aligns paragraphs.
#[derive(Clone, Copy, Debug, PartialEq, Eq, Structural)]
pub struct SlidePrelude {
    pub colors: Colors,
    pub margin: Margin,
    pub footer_height: u16,
    pub paragraph_alignment: Alignment,
}

/// The operations that start a slide: set the colors, clear the screen, apply the margins,
/// and a line break.
pub open spec fn prelude_operations(p: SlidePrelude) -> Seq<RenderOperation> {
    seq![
        RenderOperation::SetColors(p.colors),
        RenderOperation::ClearScreen,
        RenderOperation::ApplyMargin(
            MarginProperties { horizontal: p.margin, top: 0, bottom: p.footer_height },
        ),
        RenderOperation::RenderLineBreak,
    ]
}

/// How slides are built.
#[derive(Clone, Debug)]
pub struct BuilderSettings {
    /// Whether a pause ends the slide, starting the next one with what was there.
    pub pause_create_new_slide: bool,
    /// Whether the terminal can draw text in larger font sizes.
    pub font_size_supported: bool,
    /// Whether only the speaker notes are rendered.
    pub render_speaker_notes_only: bool,
    /// What comment commands start with.
    pub command_prefix: String,
    /// Whether the items of a list show one after the other.
    pub incremental_lists: bool,
    /// Whether an incremental list starts with a pause.
    pub pause_before_incremental_lists: bool,
    /// Whether an incremental list ends with a pause.
    pub pause_after_incremental_lists: bool,
    /// The number of line breaks after a list item.
    pub list_item_newlines: u8,
    /// Whether the rows of a table show one after the other.
    pub incremental_tables: bool,
    /// Whether an incremental table starts with a pause.
    pub pause_before_incremental_tables: bool,
    /// Whether an incremental table ends with a pause.
    pub pause_after_incremental_tables: bool,
}

/// Builds slides out of a presentation's elements.
pub struct PresentationBuilder {
    pub settings: BuilderSettings,
    pub prelude: SlidePrelude,
    pub chunk_operations: Vec<RenderOperation>,
    pub chunk_mutators: Vec<HighlightMutator>,
    pub slide_chunks: Vec<SlideChunk>,
    pub slides: Vec<Slide>,
    pub slides_without_footer: Vec<usize>,
    pub slide_state: SlideState,
}

/// What a comment needs done that the builder can't do by itself.
#[derive(Clone, Debug, PartialEq, Eq)]
pub enum CommentOutcome {
    /// The comment was processed.
    Done,
    /// The markdown file at this path is to be included here.
    Include(String),
    /// The output of the snippet with this id is to be placed here.
    SnippetOutput(String),
}

/// Whether a chunk's operations are all line breaks.
pub open spec fn only_line_breaks(operations: Seq<RenderOperation>) -> bool {
    forall|i: int| 0 <= i < operations.len() ==> (#[trigger] operations[i]) is RenderLineBreak
}

/// `n` line breaks.
pub open spec fn line_breaks(n: nat) -> Seq<RenderOperation> {
    Seq::new(n, |_i: int| RenderOperation::RenderLineBreak)
}

/// The alignment a comment asks for.
pub open spec fn comment_alignment(a: CommentCommandAlignment) -> Alignment {
    match a {
        CommentCommandAlignment::Left => Alignment::Left { margin: Margin::Fixed(0) },
        CommentCommandAlignment::Center => Alignment::Center {
            minimum_margin: Margin::Fixed(0),
            minimum_size: 0,
        },
        CommentCommandAlignment::Right => Alignment::Right { margin: Margin::Fixed(0) },
    }
}

/// Whether a character is white space, as `char::is_whitespace` says.
pub open spec fn is_white_space(c: char) -> bool {
    c == '\t' || c == '\n' || c == '\x0B' || c == '\x0C' || c == '\r' || c == ' ' || c == '\u{85}'
        || c == '\u{A0}' || c == '\u{1680}' || ('\u{2000}' <= c && c <= '\u{200A}') || c == '\u{2028}'
        || c == '\u{2029}' || c == '\u{202F}' || c == '\u{205F}' || c == '\u{3000}'
}

/// Whether a character is white space, as `char::is_whitespace` says.
pub fn char_is_white_space(c: char) -> (b: bool)
    ensures
        b == is_white_space(c),
{
    c == '\t' || c == '\n' || c == '\x0B' || c == '\x0C' || c == '\r' || c == ' ' || c == '\u{85}'
        || c == '\u{A0}' || c == '\u{1680}' || ('\u{2000}' <= c && c <= '\u{200A}') || c == '\u{2028}'
        || c == '\u{2029}' || c == '\u{202F}' || c == '\u{205F}' || c == '\u{3000}'
}

/// The index of the first character from `k` on that isn't white space.
pub open spec fn first_non_space(s: Seq<char>, k: int) -> int
    decreases s.len() - k,
{
    if 0 <= k < s.len() && is_white_space(s[k]) {
        first_non_space(s, k + 1)
    } else {
        k
    }
}

/// One past the index of the last character before `k` that isn't white space.
pub open spec fn last_non_space(s: Seq<char>, k: int) -> int
    decreases k,
{
    if 0 < k <= s.len() && is_white_space(s[k - 1]) {
        last_non_space(s, k - 1)
    } else {
        k
    }
}

/// A text without white space at either end, as `str::trim` gives it.
pub open spec fn trimmed(s: Seq<char>) -> Seq<char> {
    let start = first_non_space(s, 0);
    if start >= s.len() {
        Seq::empty()
    } else {
        s.subrange(start, last_non_space(s, s.len() as int))
    }
}

/// A text with every leading copy of `prefix` removed, as `str::trim_start_matches` gives it.
pub open spec fn strip_prefixes(s: Seq<char>, prefix: Seq<char>) -> Seq<char>
    decreases s.len(),
{
    if prefix.len() > 0 && occurs_at(s, prefix, 0) {
        strip_prefixes(s.skip(prefix.len() as int), prefix)
    } else {
        s
    }
}

/// Whether a comment that isn't a command is meant to be ignored: it spans several lines, or
/// doesn't start with the command prefix, or is a vim modeline or a folding marker.
pub open spec fn ignored_comment(comment: Seq<char>, prefix: Seq<char>) -> bool {
    (exists|i: int| 0 <= i < comment.len() && comment[i] == '\n') || !occurs_at(comment, prefix, 0)
        || occurs_at(trimmed(comment), "vim:"@, 0) || trimmed(comment) == "{{{"@ || trimmed(comment)
        == "}}}"@
}

/// What a chunk holds.
pub struct ChunkView {
    pub operations: Seq<RenderOperation>,
    pub mutators: Seq<HighlightMutator>,
}

/// What a chunk holds.
pub open spec fn chunk_view(c: SlideChunk) -> ChunkView {
    ChunkView { operations: c.operations@, mutators: c.mutators@ }
}

/// What a slide's chunks hold.
pub open spec fn slide_view(s: Slide) -> Seq<ChunkView> {
    s.chunks@.map_values(|c: SlideChunk| chunk_view(c))
}

/// What a builder holds.
pub struct BuilderView {
    pub operations: Seq<RenderOperation>,
    pub mutators: Seq<HighlightMutator>,
    pub chunks: Seq<ChunkView>,
    pub slides: Seq<Seq<ChunkView>>,
    pub without_footer: Seq<usize>,
    pub state: SlideState,
}

/// What a comment leaves for the caller to do.
pub enum OutcomeView {
    Done,
    Include(Seq<char>),
    SnippetOutput(Seq<char>),
}

/// What a comment leaves for the caller to do.
pub open spec fn outcome_view(o: CommentOutcome) -> OutcomeView {
    match o {
        CommentOutcome::Done => OutcomeView::Done,
        CommentOutcome::Include(p) => OutcomeView::Include(p@),
        CommentOutcome::SnippetOutput(id) => OutcomeView::SnippetOutput(id@),
    }
}

/// Ending a slide: the pending operations become its last chunk, unless they're only line
/// breaks after some other chunk; the slide is kept unless it was skipped, and marked when it
/// has no footer; then the next slide starts with the prelude.
pub open spec fn terminated(b: BuilderView, prelude: SlidePrelude) -> BuilderView {
    let keep = b.chunks.len() == 0 || !only_line_breaks(b.operations);
    let chunks = if keep {
        b.chunks.push(ChunkView { operations: b.operations, mutators: b.mutators })
    } else {
        b.chunks
    };
    let slides = if b.state.skip_slide {
        b.slides
    } else {
        b.slides.push(chunks)
    };
    let without_footer = if !b.state.skip_slide && b.state.ignore_footer {
        b.without_footer.push(b.slides.len() as usize)
    } else {
        b.without_footer
    };
    BuilderView {
        operations: prelude_operations(prelude),
        mutators: Seq::empty(),
        chunks: Seq::empty(),
        slides,
        without_footer,
        state: fresh_slide_state(),
    }
}

/// A pause within a slide: the pending operations become a chunk.
pub open spec fn paused(b: BuilderView) -> BuilderView {
    BuilderView {
        operations: Seq::empty(),
        mutators: Seq::empty(),
        chunks: b.chunks.push(ChunkView { operations: b.operations, mutators: b.mutators }),
        state: SlideState { last_chunk_ended_in_list: b.state.last_element is List, ..b.state },
        ..b
    }
}

/// Whether `after` holds clones of the operations in `before`, in order.
pub open spec fn cloned_operations(before: Seq<RenderOperation>, after: Seq<RenderOperation>) -> bool {
    before.len() == after.len() && forall|i: int|
        0 <= i < before.len() ==> cloned::<RenderOperation>(before[i], #[trigger] after[i])
}

/// A pause that ends the slide: the slide ends as `terminated` says, and the next one starts
/// with clones of the operations that were pending.
pub open spec fn paused_into_new_slide(
    b: BuilderView,
    prelude: SlidePrelude,
    after: BuilderView,
) -> bool {
    &&& after == (BuilderView { operations: after.operations, ..terminated(b, prelude) })
    &&& cloned_operations(b.operations, after.operations)
}

/// The font size of the slide: the one a comment set, 1 by default, kept between 1 and 7, and
/// always 1 when the terminal can't draw larger text.
pub open spec fn font_size_of(state: SlideState, supported: bool) -> u8 {
    if supported {
        let size = match state.font_size {
            Some(s) => s,
            None => 1u8,
        };
        if size < 1 {
            1
        } else if size > 7 {
            7
        } else {
            size
        }
    } else {
        1
    }
}

/// The error a column layout has, if any: no columns, or a column without width.
pub open spec fn layout_error(columns: Seq<u8>) -> Option<InvalidPresentation> {
    if columns.len() == 0 {
        Some(InvalidPresentation::EmptyLayout)
    } else if exists|i: int| 0 <= i < columns.len() && columns[i] == 0 {
        Some(InvalidPresentation::ZeroSizedColumn)
    } else {
        None
    }
}

/// The error entering a column has, if any: there's no layout, it's the current column, or the
/// layout has no such column.
pub open spec fn column_error(layout: LayoutState, column: usize) -> Option<InvalidPresentation> {
    match layout {
        LayoutState::Default => Some(InvalidPresentation::NoLayout),
        LayoutState::InLayout { columns_count } => if column >= columns_count {
            Some(InvalidPresentation::ColumnIndexTooLarge)
        } else {
            None
        },
        LayoutState::InColumn { column: current, columns_count } => if current == column {
            Some(InvalidPresentation::AlreadyInColumn)
        } else if column >= columns_count {
            Some(InvalidPresentation::ColumnIndexTooLarge)
        } else {
            None
        },
    }
}

/// The layout's number of columns.
pub open spec fn columns_count_of(layout: LayoutState) -> usize {
    match layout {
        LayoutState::Default => 0,
        LayoutState::InLayout { columns_count } => columns_count,
        LayoutState::InColumn { columns_count, .. } => columns_count,
    }
}

/// What a command does in presentation mode, before the line break that follows a comment is
/// dropped; `None` for the commands that leave work to the caller.
pub open spec fn command_effect(
    b: BuilderView,
    command: CommentCommand,
    prelude: SlidePrelude,
    new_slide: bool,
    font: u8,
) -> Result<BuilderView, InvalidPresentation> {
    match command {
        CommentCommand::Pause => Ok(paused(b)),
        CommentCommand::EndSlide => Ok(terminated(b, prelude)),
        CommentCommand::NewLine => Ok(
            BuilderView { operations: b.operations + line_breaks(font as nat), ..b },
        ),
        CommentCommand::NewLines(count) => Ok(
            BuilderView { operations: b.operations + line_breaks(count as nat * font as nat), ..b },
        ),
        CommentCommand::JumpToMiddle => Ok(
            BuilderView { operations: b.operations.push(RenderOperation::JumpToVerticalCenter), ..b },
        ),
        CommentCommand::InitColumnLayout(columns) => match layout_error(columns@) {
            Some(e) => Err(e),
            None => Ok(
                BuilderView {
                    operations: b.operations.push(RenderOperation::InitColumnLayout { columns }),
                    state: SlideState {
                        layout: LayoutState::InLayout { columns_count: columns@.len() as usize },
                        needs_enter_column: true,
                        ..b.state
                    },
                    ..b
                },
            ),
        },
        CommentCommand::ResetLayout => Ok(
            BuilderView {
                operations: b.operations + seq![
                    RenderOperation::ExitLayout,
                    RenderOperation::RenderLineBreak,
                ],
                state: SlideState { layout: LayoutState::Default, ..b.state },
                ..b
            },
        ),
        CommentCommand::Column(column) => match column_error(b.state.layout, column) {
            Some(e) => Err(e),
            None => Ok(
                BuilderView {
                    operations: b.operations.push(RenderOperation::EnterColumn { column }),
                    state: SlideState {
                        layout: LayoutState::InColumn {
                            column,
                            columns_count: columns_count_of(b.state.layout),
                        },
                        ..b.state
                    },
                    ..b
                },
            ),
        },
        CommentCommand::IncrementalLists(value) => Ok(
            BuilderView { state: SlideState { incremental_lists: Some(value), ..b.state }, ..b },
        ),
        CommentCommand::NoFooter => Ok(
            BuilderView { state: SlideState { ignore_footer: true, ..b.state }, ..b },
        ),
        CommentCommand::FontSize(size) => if size == 0 || size > 7 {
            Err(InvalidPresentation::InvalidFontSize)
        } else {
            Ok(BuilderView { state: SlideState { font_size: Some(size), ..b.state }, ..b })
        },
        CommentCommand::Alignment(a) => Ok(
            BuilderView {
                state: SlideState { alignment: Some(comment_alignment(a)), ..b.state },
                ..b
            },
        ),
        CommentCommand::SkipSlide => Ok(
            BuilderView { state: SlideState { skip_slide: true, ..b.state }, ..b },
        ),
        CommentCommand::ListItemNewlines(count) => Ok(
            BuilderView { state: SlideState { list_item_newlines: Some(count), ..b.state }, ..b },
        ),
        _ => Ok(b),
    }
}

impl PresentationBuilder {
    /// What this builder holds.
    pub open spec fn view(&self) -> BuilderView {
        BuilderView {
            operations: self.chunk_operations@,
            mutators: self.chunk_mutators@,
            chunks: self.slide_chunks@.map_values(|c: SlideChunk| chunk_view(c)),
            slides: self.slides@.map_values(|s: Slide| slide_view(s)),
            without_footer: self.slides_without_footer@,
            state: self.slide_state,
        }
    }

    /// The font size of the current slide.
    pub open spec fn font_size(&self) -> u8 {
        font_size_of(self.slide_state, self.settings.font_size_supported)
    }

    /// A builder with no slide yet, whose first slide starts with the prelude.
    pub fn new(settings: BuilderSettings, prelude: SlidePrelude) -> (b: Self)
        ensures
            b.view() == (BuilderView {
                operations: prelude_operations(prelude),
                mutators: Seq::empty(),
                chunks: Seq::empty(),
                slides: Seq::empty(),
                without_footer: Seq::empty(),
                state: fresh_slide_state(),
            }),
            b.settings == settings,
            b.prelude == prelude,
    {
        let mut b = PresentationBuilder {
            settings,
            prelude,
            chunk_operations: Vec::new(),
            chunk_mutators: Vec::new(),
            slide_chunks: Vec::new(),
            slides: Vec::new(),
            slides_without_footer: Vec::new(),
            slide_state: SlideState::default(),
        };
        b.push_slide_prelude();
        assert(b.view().chunks =~= Seq::<ChunkView>::empty());
        assert(b.view().slides =~= Seq::<Seq<ChunkView>>::empty());
        b
    }

    /// Starts a slide: the theme's colors, a cleared screen, the margins and a line break.
    pub(crate) fn push_slide_prelude(&mut self)
        ensures
            final(self).view() == (BuilderView {
                operations: old(self).view().operations + prelude_operations(old(self).prelude),
                ..old(self).view()
            }),
            final(self).slides@ == old(self).slides@,
            final(self).settings == old(self).settings,
            final(self).prelude == old(self).prelude,
    {
        let ghost before = self.chunk_operations@;
        self.chunk_operations.push(RenderOperation::SetColors(self.prelude.colors));
        self.chunk_operations.push(RenderOperation::ClearScreen);
        self.chunk_operations.push(
            RenderOperation::ApplyMargin(
                MarginProperties {
                    horizontal: self.prelude.margin,
                    top: 0,
                    bottom: self.prelude.footer_height,
                },
            ),
        );
        self.chunk_operations.push(RenderOperation::RenderLineBreak);
        assert(self.chunk_operations@ =~= before + prelude_operations(self.prelude));
        assert(self.view().chunks =~= old(self).view().chunks);
        assert(self.view().slides =~= old(self).view().slides);
    }

    /// Appends line breaks.
    pub(crate) fn push_line_breaks(&mut self, count: usize)
        ensures
            final(self).view() == (BuilderView {
                operations: old(self).view().operations + line_breaks(count as nat),
                ..old(self).view()
            }),
            final(self).settings == old(self).settings,
            final(self).prelude == old(self).prelude,
    {
        let ghost before = self.chunk_operations@;
        let mut i: usize = 0;
        while i < count
            invariant
                i <= count,
                self.chunk_operations@ == before + line_breaks(i as nat),
                self.slide_chunks@ == old(self).slide_chunks@,
                self.slides@ == old(self).slides@,
                self.chunk_mutators@ == old(self).chunk_mutators@,
                self.slides_without_footer@ == old(self).slides_without_footer@,
                self.slide_state == old(self).slide_state,
                self.settings == old(self).settings,
                self.prelude == old(self).prelude,
            decreases count - i,
        {
            self.chunk_operations.push(RenderOperation::RenderLineBreak);
            i += 1;
            assert(self.chunk_operations@ =~= before + line_breaks(i as nat));
        }
    }

    /// Whether some operations are all line breaks.
    fn is_chunk_empty(operations: &Vec<RenderOperation>) -> (b: bool)
        ensures
            b == only_line_breaks(operations@),
    {
        let mut i: usize = 0;
        while i < operations.len()
            invariant
                i <= operations@.len(),
                forall|k: int| 0 <= k < i ==> (#[trigger] operations@[k]) is RenderLineBreak,
            decreases operations@.len() - i,
        {
            match &operations[i] {
                RenderOperation::RenderLineBreak => {},
                _ => {
                    return false;
                },
            }
            i += 1;
        }
        true
    }

    /// Ends the current slide and starts the next one.
    pub fn terminate_slide(&mut self)
        ensures
            final(self).view() == terminated(old(self).view(), old(self).prelude),
            final(self).slides@.take(old(self).slides@.len() as int) == old(self).slides@,
            final(self).slides@.len() > old(self).slides@.len() ==> final(self).slides@.last().footer@.len()
                == 0 && final(self).slides@.last().visible_chunks == 1,
            final(self).settings == old(self).settings,
            final(self).prelude == old(self).prelude,
    {
        let ghost b = self.view();
        let mut operations = Vec::new();
        std::mem::swap(&mut operations, &mut self.chunk_operations);
        let mut mutators = Vec::new();
        std::mem::swap(&mut mutators, &mut self.chunk_mutators);
        let keep = self.slide_chunks.len() == 0 || !Self::is_chunk_empty(&operations);
        let ghost chunk = ChunkView { operations: operations@, mutators: mutators@ };
        if keep {
            self.slide_chunks.push(SlideChunk::new(operations, mutators));
        }
        let mut chunks = Vec::new();
        std::mem::swap(&mut chunks, &mut self.slide_chunks);
        proof {
            let expected = if keep {
                b.chunks.push(chunk)
            } else {
                b.chunks
            };
            assert(chunks@.map_values(|c: SlideChunk| chunk_view(c)) =~= expected);
        }
        if !self.slide_state.skip_slide {
            if self.slide_state.ignore_footer {
                self.slides_without_footer.push(self.slides.len());
            }
            self.slides.push(Slide::new(chunks, Vec::new()));
        }
        self.slide_state = SlideState::default();
        proof {
            assert(self.view().slides =~= terminated(b, self.prelude).slides);
            assert(self.view().chunks =~= Seq::<ChunkView>::empty());
        }
        self.push_slide_prelude();
        proof {
            assert(self.view().operations =~= prelude_operations(self.prelude));
        }
    }

    /// A pause: the pending operations become a chunk of the slide; or, when pauses create
    /// slides, the slide ends and the next one starts with the same operations.
    pub fn push_pause(&mut self)
        ensures
            old(self).settings.pause_create_new_slide ==> paused_into_new_slide(
                old(self).view(),
                old(self).prelude,
                final(self).view(),
            ),
            !old(self).settings.pause_create_new_slide ==> final(self).view() == paused(
                old(self).view(),
            ),
            final(self).settings == old(self).settings,
            final(self).prelude == old(self).prelude,
    {
        if self.settings.pause_create_new_slide {
            let operations = self.chunk_operations.clone();
            assert(cloned_operations(old(self).chunk_operations@, operations@)) by {
                assert forall|i: int| 0 <= i < operations@.len() implies cloned::<RenderOperation>(
                    old(self).chunk_operations@[i],
                    #[trigger] operations@[i],
                ) by {
                    assert(cloned::<RenderOperation>(old(self).chunk_operations[i], operations[i]));
                }
            }
            self.terminate_slide();
            self.chunk_operations = operations;
            return;
        }
        self.slide_state.last_chunk_ended_in_list = match self.slide_state.last_element {
            LastElement::List { .. } => true,
            _ => false,
        };
        let mut operations = Vec::new();
        std::mem::swap(&mut operations, &mut self.chunk_operations);
        let mut mutators = Vec::new();
        std::mem::swap(&mut mutators, &mut self.chunk_mutators);
        self.slide_chunks.push(SlideChunk::new(operations, mutators));
        assert(self.view().chunks =~= old(self).view().chunks.push(
            ChunkView { operations: old(self).chunk_operations@, mutators: old(self).chunk_mutators@ },
        ));
    }

    /// The font size of the current slide.
    pub fn slide_font_size(&self) -> (s: u8)
        ensures
            s == self.font_size(),
    {
        let font_size = match self.slide_state.font_size {
            Some(s) => s,
            None => 1,
        };
        if self.settings.font_size_supported {
            if font_size < 1 {
                1
            } else if font_size > 7 {
                7
            } else {
                font_size
            }
        } else {
            1
        }
    }
}

/// A text without white space at either end, as `str::trim` gives it.
pub fn trim_chars(s: &[char]) -> (t: Vec<char>)
    ensures
        t@ == trimmed(s@),
{
    let n = s.len();
    let mut start: usize = 0;
    while start < n && char_is_white_space(s[start])
        invariant
            start <= n == s@.len(),
            first_non_space(s@, 0) == first_non_space(s@, start as int),
        decreases n - start,
    {
        start += 1;
    }
    if start >= n {
        return Vec::new();
    }
    let mut end: usize = n;
    while end > 0 && char_is_white_space(s[end - 1])
        invariant
            end <= n == s@.len(),
            last_non_space(s@, n as int) == last_non_space(s@, end as int),
            start < n,
            !is_white_space(s@[start as int]),
            start < end,
        decreases end,
    {
        if end - 1 == start {
            assert(false);
        }
        end -= 1;
    }
    let mut t: Vec<char> = Vec::new();
    let mut k = start;
    while k < end
        invariant
            start <= k <= end <= n == s@.len(),
            t@ == s@.subrange(start as int, k as int),
        decreases end - k,
    {
        t.push(s[k]);
        k += 1;
        assert(t@ =~= s@.subrange(start as int, k as int));
    }
    t
}

/// A text with every leading copy of `prefix` removed, as `str::trim_start_matches` gives it.
pub fn strip_prefixes_chars(s: &[char], prefix: &[char]) -> (t: Vec<char>)
    ensures
        t@ == strip_prefixes(s@, prefix@),
{
    let n = s.len();
    let m = prefix.len();
    let mut at: usize = 0;
    assert(s@.skip(0) =~= s@);
    loop
        invariant
            at <= n == s@.len(),
            m == prefix@.len(),
            strip_prefixes(s@, prefix@) == strip_prefixes(s@.skip(at as int), prefix@),
        ensures
            at <= n,
            strip_prefixes(s@, prefix@) == s@.skip(at as int),
        decreases n - at,
    {
        if m == 0 || n - at < m {
            break;
        }
        let mut same = true;
        let mut j: usize = 0;
        while j < m
            invariant
                j <= m == prefix@.len(),
                at + m <= n == s@.len(),
                same == (forall|k: int| 0 <= k < j ==> s@[at + k] == prefix@[k]),
            decreases m - j,
        {
            if s[at + j] != prefix[j] {
                same = false;
            }
            j += 1;
        }
        let ghost rest = s@.skip(at as int);
        proof {
            if same {
                assert(rest.subrange(0, m as int) =~= prefix@);
                assert(rest.skip(m as int) =~= s@.skip(at + m));
            } else {
                let k = choose|k: int| 0 <= k < m && s@[at + k] != prefix@[k];
                assert(rest.subrange(0, m as int)[k] != prefix@[k]);
                assert(!occurs_at(rest, prefix@, 0));
            }
        }
        if !same {
            break;
        }
        at += m;
    }
    let mut t: Vec<char> = Vec::new();
    let mut k = at;
    while k < n
        invariant
            at <= k <= n == s@.len(),
            t@ == s@.subrange(at as int, k as int),
        decreases n - k,
    {
        t.push(s[k]);
        k += 1;
        assert(t@ =~= s@.subrange(at as int, k as int));
    }
    assert(t@ =~= s@.skip(at as int));
    t
}

/// What running a command in presentation mode gives: `r` and the view `after`, from the view
/// `b` with the given prelude, pause behavior and font size.
pub open spec fn presentation_mode_result(
    b: BuilderView,
    prelude: SlidePrelude,
    new_slide: bool,
    font: u8,
    command: CommentCommand,
    r: Result<CommentOutcome, InvalidPresentation>,
    after: BuilderView,
) -> bool {
    &&& command matches CommentCommand::Include(p) ==> (r matches Ok(o) && outcome_view(o)
        == OutcomeView::Include(p@) && after == b)
    &&& command matches CommentCommand::SnippetOutput(id) ==> (r matches Ok(o) && outcome_view(o)
        == OutcomeView::SnippetOutput(id@) && after == b)
    &&& (command is Pause && new_slide) ==> (r == Ok::<CommentOutcome, InvalidPresentation>(
        CommentOutcome::Done,
    ) && paused_into_new_slide(b, prelude, BuilderView { state: fresh_slide_state(), ..after })
        && after.state == SlideState { ignore_element_line_break: true, ..fresh_slide_state() })
    &&& !(command is Include || command is SnippetOutput || (command is Pause && new_slide))
        ==> match command_effect(b, command, prelude, new_slide, font) {
        Ok(v) => r == Ok::<CommentOutcome, InvalidPresentation>(CommentOutcome::Done) && after
            == without_line_break(v),
        Err(e) => r == Err::<CommentOutcome, InvalidPresentation>(e) && after == b,
    }
}

/// What running a command when only speaker notes are rendered gives, from the view `b`.
pub open spec fn speaker_notes_mode_result(
    b: BuilderView,
    prelude: SlidePrelude,
    alignment: Option<Alignment>,
    font: u8,
    command: CommentCommand,
    after: BuilderView,
) -> bool {
    &&& command matches CommentCommand::SpeakerNote(note) ==> ({
        let added = after.operations.skip(b.operations.len() as int);
        &&& after == (BuilderView { operations: after.operations, ..b })
        &&& after.operations.take(b.operations.len() as int) == b.operations
        &&& renders_lines(
            added,
            lines_of(note@),
            match alignment {
                Some(a) => a,
                None => prelude.paragraph_alignment,
            },
            note_style(font),
        )
    })
    &&& command is EndSlide ==> after == terminated(b, prelude)
    &&& command is SkipSlide ==> after == (BuilderView {
        state: SlideState { skip_slide: true, ..b.state },
        ..b
    })
    &&& !(command is SpeakerNote || command is EndSlide || command is SkipSlide) ==> after == b
}

/// A view with the line break that follows a comment dropped.
pub open spec fn without_line_break(v: BuilderView) -> BuilderView {
    BuilderView { state: SlideState { ignore_element_line_break: true, ..v.state }, ..v }
}

/// The style of a speaker note's text in a slide of the given font size.
pub open spec fn note_style(font: u8) -> TextStyle {
    if font > 1 {
        TextStyle { size: font, ..TextStyle::plain() }
    } else {
        TextStyle::plain()
    }
}

/// Whether an operation renders a line of plain text in the given alignment and style.
pub open spec fn renders_line(
    op: RenderOperation,
    text: Seq<char>,
    alignment: Alignment,
    style: TextStyle,
) -> bool {
    op matches RenderOperation::RenderText { line, alignment: a } && a == alignment
        && line.chunks@.len() == 1 && line.chunks@[0].content@ == text && line.chunks@[0].style
        == style
}

/// Whether `added` renders the given lines, each aligned and followed by a line break.
pub open spec fn renders_lines(
    added: Seq<RenderOperation>,
    lines: Seq<Seq<char>>,
    alignment: Alignment,
    style: TextStyle,
) -> bool {
    &&& added.len() == 2 * lines.len()
    &&& forall|i: int|
        0 <= i < lines.len() ==> renders_line(#[trigger] added[2 * i], lines[i], alignment, style)
    &&& forall|i: int| 0 <= i < lines.len() ==> (#[trigger] added[2 * i + 1]) is RenderLineBreak
}

/// An error building a presentation.
#[derive(Clone, Copy, Debug, PartialEq, Eq, Structural)]
pub enum BuildError {
    /// The presentation is invalid.
    InvalidPresentation(InvalidPresentation),
    /// Something was drawn in a column layout before a column was entered.
    NotInsideColumn,
}

impl PresentationBuilder {
    /// Checks the widths of a column layout.
    fn validate_column_layout(columns: &Vec<u8>) -> (r: Result<(), InvalidPresentation>)
        ensures
            r matches Err(e) ==> layout_error(columns@) == Some(e),
            r is Ok ==> layout_error(columns@) is None,
    {
        if columns.len() == 0 {
            return Err(InvalidPresentation::EmptyLayout);
        }
        let mut i: usize = 0;
        while i < columns.len()
            invariant
                i <= columns@.len(),
                forall|k: int| 0 <= k < i ==> columns@[k] != 0,
            decreases columns@.len() - i,
        {
            if columns[i] == 0 {
                return Err(InvalidPresentation::ZeroSizedColumn);
            }
            i += 1;
        }
        Ok(())
    }

    /// Runs a comment's command: pauses, slide ends, line breaks, layouts, columns and the
    /// slide's settings. Including a file and placing a snippet's output are left to the caller.
    /// No element line break follows a comment.
    pub fn process_comment_command_presentation_mode(&mut self, command: CommentCommand) -> (r:
        Result<CommentOutcome, InvalidPresentation>)
        requires
            command matches CommentCommand::NewLines(n) ==> n as nat * old(self).font_size() as nat
                <= usize::MAX,
        ensures
            final(self).settings == old(self).settings,
            final(self).prelude == old(self).prelude,
            presentation_mode_result(
                old(self).view(),
                old(self).prelude,
                old(self).settings.pause_create_new_slide,
                old(self).font_size(),
                command,
                r,
                final(self).view(),
            ),
    {
        match command {
            CommentCommand::Include(path) => Ok(CommentOutcome::Include(path)),
            CommentCommand::SnippetOutput(id) => Ok(CommentOutcome::SnippetOutput(id)),
            CommentCommand::Pause => {
                self.push_pause();
                self.drop_line_break();
                Ok(CommentOutcome::Done)
            },
            CommentCommand::EndSlide => {
                self.terminate_slide();
                self.drop_line_break();
                Ok(CommentOutcome::Done)
            },
            CommentCommand::NewLine | CommentCommand::NewLines(_) | CommentCommand::JumpToMiddle => {
                self.line_command(command)
            },
            CommentCommand::InitColumnLayout(_) | CommentCommand::ResetLayout | CommentCommand::Column(
                _,
            ) => self.layout_command(command),
            _ => self.setting_command(command),
        }
    }

    /// Drops the line break that would follow the current element.
    fn drop_line_break(&mut self)
        ensures
            final(self).view() == without_line_break(old(self).view()),
            final(self).settings == old(self).settings,
            final(self).prelude == old(self).prelude,
    {
        self.slide_state.ignore_element_line_break = true;
        assert(self.view().chunks =~= old(self).view().chunks);
        assert(self.view().slides =~= old(self).view().slides);
    }

    /// Line breaks and the jump to the middle of the screen.
    fn line_command(&mut self, command: CommentCommand) -> (r: Result<CommentOutcome, InvalidPresentation>)
        requires
            command is NewLine || command is NewLines || command is JumpToMiddle,
            command matches CommentCommand::NewLines(n) ==> n as nat * old(self).font_size() as nat
                <= usize::MAX,
        ensures
            final(self).settings == old(self).settings,
            final(self).prelude == old(self).prelude,
            match command_effect(
                old(self).view(),
                command,
                old(self).prelude,
                old(self).settings.pause_create_new_slide,
                old(self).font_size(),
            ) {
                Ok(v) => r == Ok::<CommentOutcome, InvalidPresentation>(CommentOutcome::Done)
                    && final(self).view() == without_line_break(v),
                Err(e) => r == Err::<CommentOutcome, InvalidPresentation>(e) && final(self).view()
                    == old(self).view(),
            },
    {
        match command {
            CommentCommand::NewLine => {
                let font = self.slide_font_size();
                self.push_line_breaks(font as usize);
            },
            CommentCommand::NewLines(count) => {
                let font = self.slide_font_size();
                self.push_line_breaks(count as usize * font as usize);
            },
            _ => {
                self.chunk_operations.push(RenderOperation::JumpToVerticalCenter);
                assert(self.view().chunks =~= old(self).view().chunks);
                assert(self.view().slides =~= old(self).view().slides);
            },
        }
        self.drop_line_break();
        Ok(CommentOutcome::Done)
    }

    /// Column layouts: creating one, leaving it, and entering a column.
    fn layout_command(&mut self, command: CommentCommand) -> (r: Result<CommentOutcome, InvalidPresentation>)
        requires
            command is InitColumnLayout || command is ResetLayout || command is Column,
        ensures
            final(self).settings == old(self).settings,
            final(self).prelude == old(self).prelude,
            match command_effect(
                old(self).view(),
                command,
                old(self).prelude,
                old(self).settings.pause_create_new_slide,
                old(self).font_size(),
            ) {
                Ok(v) => r == Ok::<CommentOutcome, InvalidPresentation>(CommentOutcome::Done)
                    && final(self).view() == without_line_break(v),
                Err(e) => r == Err::<CommentOutcome, InvalidPresentation>(e) && final(self).view()
                    == old(self).view(),
            },
    {
        match command {
            CommentCommand::InitColumnLayout(columns) => {
                match Self::validate_column_layout(&columns) {
                    Ok(()) => {},
                    Err(e) => {
                        return Err(e);
                    },
                }
                self.slide_state.layout = LayoutState::InLayout { columns_count: columns.len() };
                self.chunk_operations.push(RenderOperation::InitColumnLayout { columns });
                self.slide_state.needs_enter_column = true;
            },
            CommentCommand::ResetLayout => {
                self.slide_state.layout = LayoutState::Default;
                self.chunk_operations.push(RenderOperation::ExitLayout);
                self.chunk_operations.push(RenderOperation::RenderLineBreak);
                assert(self.view().operations =~= old(self).view().operations + seq![
                    RenderOperation::ExitLayout,
                    RenderOperation::RenderLineBreak,
                ]);
            },
            CommentCommand::Column(column) => {
                let (current_column, columns_count) = match self.slide_state.layout {
                    LayoutState::InColumn { column, columns_count } => (Some(column), columns_count),
                    LayoutState::InLayout { columns_count } => (None, columns_count),
                    LayoutState::Default => {
                        return Err(InvalidPresentation::NoLayout);
                    },
                };
                if current_column == Some(column) {
                    return Err(InvalidPresentation::AlreadyInColumn);
                } else if column >= columns_count {
                    return Err(InvalidPresentation::ColumnIndexTooLarge);
                }
                self.slide_state.layout = LayoutState::InColumn { column, columns_count };
                self.chunk_operations.push(RenderOperation::EnterColumn { column });
            },
            _ => {},
        }
        assert(self.view().chunks =~= old(self).view().chunks);
        assert(self.view().slides =~= old(self).view().slides);
        self.drop_line_break();
        Ok(CommentOutcome::Done)
    }

    /// The slide's settings: incremental lists, footer, font size, alignment, skipping, list
    /// item spacing; and speaker notes, which do nothing here.
    fn setting_command(&mut self, command: CommentCommand) -> (r: Result<CommentOutcome, InvalidPresentation>)
        requires
            command is IncrementalLists || command is NoFooter || command is SpeakerNote
                || command is FontSize || command is Alignment || command is SkipSlide
                || command is ListItemNewlines,
        ensures
            final(self).settings == old(self).settings,
            final(self).prelude == old(self).prelude,
            match command_effect(
                old(self).view(),
                command,
                old(self).prelude,
                old(self).settings.pause_create_new_slide,
                old(self).font_size(),
            ) {
                Ok(v) => r == Ok::<CommentOutcome, InvalidPresentation>(CommentOutcome::Done)
                    && final(self).view() == without_line_break(v),
                Err(e) => r == Err::<CommentOutcome, InvalidPresentation>(e) && final(self).view()
                    == old(self).view(),
            },
    {
        match command {
            CommentCommand::IncrementalLists(value) => {
                self.slide_state.incremental_lists = Some(value);
            },
            CommentCommand::NoFooter => {
                self.slide_state.ignore_footer = true;
            },
            CommentCommand::FontSize(size) => {
                if size == 0 || size > 7 {
                    return Err(InvalidPresentation::InvalidFontSize);
                }
                self.slide_state.font_size = Some(size);
            },
            CommentCommand::Alignment(alignment) => {
                let alignment = match alignment {
                    CommentCommandAlignment::Left => Alignment::Left { margin: Margin::Fixed(0) },
                    CommentCommandAlignment::Center => Alignment::Center {
                        minimum_margin: Margin::Fixed(0),
                        minimum_size: 0,
                    },
                    CommentCommandAlignment::Right => Alignment::Right { margin: Margin::Fixed(0) },
                };
                self.slide_state.alignment = Some(alignment);
            },
            CommentCommand::SkipSlide => {
                self.slide_state.skip_slide = true;
            },
            CommentCommand::ListItemNewlines(count) => {
                self.slide_state.list_item_newlines = Some(count);
            },
            _ => {},
        }
        assert(self.view().chunks =~= old(self).view().chunks);
        assert(self.view().slides =~= old(self).view().slides);
        self.drop_line_break();
        Ok(CommentOutcome::Done)
    }

    /// Runs a comment's command when only speaker notes are rendered: a note's lines are
    /// rendered as paragraphs, a slide end ends the slide, a skipped slide is skipped, and
    /// anything else does nothing.
    pub fn process_comment_command_speaker_notes_mode(&mut self, command: CommentCommand)
        ensures
            final(self).settings == old(self).settings,
            final(self).prelude == old(self).prelude,
            speaker_notes_mode_result(
                old(self).view(),
                old(self).prelude,
                old(self).slide_state.alignment,
                old(self).font_size(),
                command,
                final(self).view(),
            ),
    {
        match command {
            CommentCommand::SpeakerNote(note) => self.push_note(note.as_str()),
            CommentCommand::EndSlide => self.terminate_slide(),
            CommentCommand::SkipSlide => {
                self.slide_state.skip_slide = true;
                assert(self.view().chunks =~= old(self).view().chunks);
                assert(self.view().slides =~= old(self).view().slides);
            },
            _ => {},
        }
    }

    /// Renders the lines of a speaker note as paragraphs.
    fn push_note(&mut self, note: &str)
        ensures
            final(self).settings == old(self).settings,
            final(self).prelude == old(self).prelude,
            ({
                let added = final(self).view().operations.skip(old(self).view().operations.len() as int);
                &&& final(self).view() == (BuilderView {
                    operations: final(self).view().operations,
                    ..old(self).view()
                })
                &&& final(self).view().operations.take(old(self).view().operations.len() as int)
                    == old(self).view().operations
                &&& renders_lines(
                    added,
                    lines_of(note@),
                    match old(self).slide_state.alignment {
                        Some(a) => a,
                        None => old(self).prelude.paragraph_alignment,
                    },
                    note_style(old(self).font_size()),
                )
            }),
    {
        let alignment = match self.slide_state.alignment {
            Some(a) => a,
            None => self.prelude.paragraph_alignment,
        };
        let font = self.slide_font_size();
        let style = if font > 1 {
            TextStyle::default().size(font)
        } else {
            TextStyle::default()
        };
        let chars = str_chars(note);
        let ghost lines = lines_of(note@);
        let ghost start = self.chunk_operations@.len();
        let mut i: usize = 0;
        loop
            invariant
                chars@ == note@,
                lines == lines_of(note@),
                i <= lines.len(),
                start == old(self).chunk_operations@.len(),
                self.chunk_operations@.len() == start + 2 * i,
                self.chunk_operations@.take(start as int) == old(self).chunk_operations@,
                renders_lines(
                    self.chunk_operations@.skip(start as int),
                    lines.take(i as int),
                    alignment,
                    style,
                ),
                alignment == match old(self).slide_state.alignment {
                    Some(a) => a,
                    None => old(self).prelude.paragraph_alignment,
                },
                style == note_style(old(self).font_size()),
                self.slide_chunks@ == old(self).slide_chunks@,
                self.slides@ == old(self).slides@,
                self.chunk_mutators@ == old(self).chunk_mutators@,
                self.slides_without_footer@ == old(self).slides_without_footer@,
                self.slide_state == old(self).slide_state,
                self.settings == old(self).settings,
                self.prelude == old(self).prelude,
            ensures
                i == lines.len(),
                self.chunk_operations@.len() == start + 2 * i,
                self.chunk_operations@.take(start as int) == old(self).chunk_operations@,
                renders_lines(self.chunk_operations@.skip(start as int), lines, alignment, style),
                self.slide_chunks@ == old(self).slide_chunks@,
                self.slides@ == old(self).slides@,
                self.chunk_mutators@ == old(self).chunk_mutators@,
                self.slides_without_footer@ == old(self).slides_without_footer@,
                self.slide_state == old(self).slide_state,
                self.settings == old(self).settings,
                self.prelude == old(self).prelude,
            decreases lines.len() - i,
        {
            let line = match nth_line(chars.as_slice(), i) {
                Some(l) => l,
                None => {
                    assert(lines.take(i as int) =~= lines);
                    break;
                },
            };
            let text = Text { content: string_from_chars(line.as_slice()), style };
            let ghost before = self.chunk_operations@;
            self.chunk_operations.push(
                RenderOperation::RenderText { line: WeightedLine::from_text(text), alignment },
            );
            self.chunk_operations.push(RenderOperation::RenderLineBreak);
            let total = self.chunk_operations.len();
            assert(total == start + 2 * i + 2);
            proof {
                let added = self.chunk_operations@.skip(start as int);
                let prev = before.skip(start as int);
                assert(added =~= prev.push(self.chunk_operations@[start + 2 * i]).push(
                    RenderOperation::RenderLineBreak,
                ));
                assert(self.chunk_operations@.take(start as int) =~= before.take(start as int));
                assert forall|k: int| 0 <= k < i + 1 implies renders_line(
                    #[trigger] added[2 * k],
                    lines.take(i + 1)[k],
                    alignment,
                    style,
                ) by {
                    if k < i {
                        assert(added[2 * k] == prev[2 * k]);
                    }
                }
                assert forall|k: int| 0 <= k < i + 1 implies (#[trigger] added[2 * k + 1]) is RenderLineBreak by {
                    if k < i {
                        assert(added[2 * k + 1] == prev[2 * k + 1]);
                    }
                }
            }
            i += 1;
        }
        assert(self.view().chunks =~= old(self).view().chunks);
        assert(self.view().slides =~= old(self).view().slides);
    }
}

/// Whether some characters hold a line feed.
fn has_line_feed(s: &[char]) -> (b: bool)
    ensures
        b == (exists|i: int| 0 <= i < s@.len() && s@[i] == '\n'),
{
    let mut i: usize = 0;
    while i < s.len()
        invariant
            i <= s@.len(),
            forall|k: int| 0 <= k < i ==> s@[k] != '\n',
        decreases s@.len() - i,
    {
        if s[i] == '\n' {
            return true;
        }
        i += 1;
    }
    false
}

/// Whether `prefix` starts `s`.
fn starts_with_chars(s: &[char], prefix: &[char]) -> (b: bool)
    ensures
        b == occurs_at(s@, prefix@, 0),
{
    if prefix.len() > s.len() {
        return false;
    }
    let mut i: usize = 0;
    while i < prefix.len()
        invariant
            i <= prefix@.len() <= s@.len(),
            forall|k: int| 0 <= k < i ==> s@[k] == prefix@[k],
        decreases prefix@.len() - i,
    {
        if s[i] != prefix[i] {
            assert(s@.subrange(0, prefix@.len() as int)[i as int] != prefix@[i as int]);
            return false;
        }
        i += 1;
    }
    assert(s@.subrange(0, prefix@.len() as int) =~= prefix@);
    true
}

impl PresentationBuilder {
    /// The text of a comment to read a command from: trimmed, with leading copies of the
    /// command prefix removed.
    pub fn command_text(&self, comment: &str) -> (t: String)
        ensures
            t@ == strip_prefixes(trimmed(comment@), self.settings.command_prefix@),
    {
        let chars = str_chars(comment);
        let trimmed_chars = trim_chars(chars.as_slice());
        let prefix = str_chars(self.settings.command_prefix.as_str());
        let stripped = strip_prefixes_chars(trimmed_chars.as_slice(), prefix.as_slice());
        string_from_chars(stripped.as_slice())
    }

    /// Whether a comment that isn't a command is to be ignored: one over several lines, one not
    /// starting with the command prefix, a vim modeline, or a folding marker.
    pub fn should_ignore_comment(&self, comment: &str) -> (b: bool)
        ensures
            b == ignored_comment(comment@, self.settings.command_prefix@),
    {
        let chars = str_chars(comment);
        let prefix = str_chars(self.settings.command_prefix.as_str());
        if has_line_feed(chars.as_slice()) || !starts_with_chars(chars.as_slice(), prefix.as_slice()) {
            return true;
        }
        let t = trim_chars(chars.as_slice());
        let vim = str_chars("vim:");
        let open = str_chars("{{{");
        let close = str_chars("}}}");
        starts_with_chars(t.as_slice(), vim.as_slice()) || crate::text_util::chars_eq(
            t.as_slice(),
            open.as_slice(),
        ) || crate::text_util::chars_eq(t.as_slice(), close.as_slice())
    }

    /// Processes a comment, given the command its text was read as (`None` when it isn't
    /// one): a comment that isn't a command fails unless it's one to ignore; a command runs
    /// as the rendering mode says.
    pub fn process_comment(&mut self, comment: &str, parsed: Option<CommentCommand>) -> (r: Result<
        CommentOutcome,
        InvalidPresentation,
    >)
        requires
            parsed matches Some(CommentCommand::NewLines(n)) ==> n as nat * old(self).font_size() as nat
                <= usize::MAX,
        ensures
            final(self).settings == old(self).settings,
            final(self).prelude == old(self).prelude,
            parsed is None && ignored_comment(trimmed(comment@), old(self).settings.command_prefix@)
                ==> r == Ok::<CommentOutcome, InvalidPresentation>(CommentOutcome::Done)
                && final(self).view() == old(self).view(),
            parsed is None && !ignored_comment(trimmed(comment@), old(self).settings.command_prefix@)
                ==> r == Err::<CommentOutcome, InvalidPresentation>(InvalidPresentation::CommandParse)
                && final(self).view() == old(self).view(),
            parsed matches Some(c) ==> (old(self).settings.render_speaker_notes_only ==> r == Ok::<
                CommentOutcome,
                InvalidPresentation,
            >(CommentOutcome::Done) && speaker_notes_mode_result(
                old(self).view(),
                old(self).prelude,
                old(self).slide_state.alignment,
                old(self).font_size(),
                c,
                final(self).view(),
            )),
            parsed matches Some(c) ==> (!old(self).settings.render_speaker_notes_only
                ==> presentation_mode_result(
                old(self).view(),
                old(self).prelude,
                old(self).settings.pause_create_new_slide,
                old(self).font_size(),
                c,
                r,
                final(self).view(),
            )),
    {
        match parsed {
            None => {
                let chars = str_chars(comment);
                let t = trim_chars(chars.as_slice());
                let trimmed_comment = string_from_chars(t.as_slice());
                if self.should_ignore_comment(trimmed_comment.as_str()) {
                    Ok(CommentOutcome::Done)
                } else {
                    Err(InvalidPresentation::CommandParse)
                }
            },
            Some(command) => {
                if self.settings.render_speaker_notes_only {
                    self.process_comment_command_speaker_notes_mode(command);
                    Ok(CommentOutcome::Done)
                } else {
                    self.process_comment_command_presentation_mode(command)
                }
            },
        }
    }

    /// Checks that, in a column layout, what was just drawn is inside a column: once something
    /// other than the layout itself follows it, it must be a column entry or the layout's end.
    pub fn validate_last_operation(&mut self) -> (r: Result<(), BuildError>)
        ensures
            final(self).settings == old(self).settings,
            final(self).prelude == old(self).prelude,
            ({
                let b = old(self).view();
                let ops = b.operations;
                if !b.state.needs_enter_column || ops.len() == 0 || ops.last() is InitColumnLayout {
                    r is Ok && final(self).view() == b
                } else {
                    final(self).view() == (BuilderView {
                        state: SlideState { needs_enter_column: false, ..b.state },
                        ..b
                    }) && (r is Ok <==> (ops.last() is EnterColumn || ops.last() is ExitLayout))
                        && (r is Err ==> r == Err::<(), BuildError>(BuildError::NotInsideColumn))
                }
            }),
    {
        if !self.slide_state.needs_enter_column {
            return Ok(());
        }
        let n = self.chunk_operations.len();
        if n == 0 {
            return Ok(());
        }
        let last_valid = match &self.chunk_operations[n - 1] {
            RenderOperation::InitColumnLayout { .. } => {
                return Ok(());
            },
            RenderOperation::EnterColumn { .. } | RenderOperation::ExitLayout => true,
            _ => false,
        };
        self.slide_state.needs_enter_column = false;
        assert(self.view().chunks =~= old(self).view().chunks);
        assert(self.view().slides =~= old(self).view().slides);
        if last_valid {
            Ok(())
        } else {
            Err(BuildError::NotInsideColumn)
        }
    }
}

impl SlidePrelude {
    /// What slides start with under a theme.
    pub fn from_theme(theme: &PresentationTheme) -> (p: Self)
        ensures
            p.colors == theme.default_colors,
            p.margin == theme.default_margin,
            p.footer_height == theme.footer_height,
            p.paragraph_alignment == theme.paragraph_alignment,
    {
        SlidePrelude {
            colors: theme.default_colors,
            margin: theme.default_margin,
            footer_height: theme.footer_height,
            paragraph_alignment: theme.paragraph_alignment,
        }
    }
}

/// How the theme draws the text of an element: its alignment, and the colors of the inline
/// code in it.
#[derive(Clone, Copy, Debug, PartialEq, Eq, Structural)]
pub struct ElementStyle {
    pub alignment: Alignment,
    pub inline_code_colors: Colors,
}

/// A piece of text as a slide at a font size shows it: inline code in the theme's colors, and
/// every piece at the slide's font size when that is larger than 1.
pub open spec fn slide_piece(
    piece: (Seq<char>, TextStyle),
    code_colors: Colors,
    font_size: u8,
) -> (Seq<char>, TextStyle) {
    let colored = if flag_set(piece.1.flags, CODE_FLAG) {
        TextStyle { colors: code_colors, ..piece.1 }
    } else {
        piece.1
    };
    let sized = if font_size > 1 {
        TextStyle { size: font_size, ..colored }
    } else {
        colored
    };
    (piece.0, sized)
}

/// A step in building a slide.
pub enum BuildStep {
    /// A pause.
    Pause,
    /// A line of text, drawn as the theme draws an element, then a line break.
    TextLine { pieces: Seq<(Seq<char>, TextStyle)>, style: ElementStyle },
    /// An operation with no text in it.
    Operation(RenderOperation),
    /// Line breaks.
    LineBreaks(nat),
    /// The slide is marked as having no footer.
    IgnoreFooter,
    /// The slide ends.
    Terminate,
    /// A list item with its index among its siblings, in a block of the given length, then
    /// line breaks.
    ListItem {
        index: usize,
        depth: u8,
        item_type: ListItemType,
        pieces: Seq<(Seq<char>, TextStyle)>,
        block_length: u16,
        code_colors: Colors,
    },
}

/// A piece of a list item: inline code in the theme's colors, and every piece at the slide's
/// font size.
pub open spec fn listed_piece(
    piece: (Seq<char>, TextStyle),
    code_colors: Colors,
    font_size: u8,
) -> (Seq<char>, TextStyle) {
    let colors = if flag_set(piece.1.flags, CODE_FLAG) {
        code_colors
    } else {
        piece.1.colors
    };
    (piece.0, TextStyle { colors, size: font_size, ..piece.1 })
}

/// The pieces of a list item.
pub open spec fn listed_pieces(
    pieces: Seq<(Seq<char>, TextStyle)>,
    code_colors: Colors,
    font_size: u8,
) -> Seq<(Seq<char>, TextStyle)> {
    pieces.map_values(|p: (Seq<char>, TextStyle)| listed_piece(p, code_colors, font_size))
}

/// A list item's line: its prefix, in the plain style at the font size, then its pieces, not
/// repeated on wrap, in a block of the given length and alignment with no background.
pub open spec fn list_line(
    op: RenderOperation,
    prefix: Seq<char>,
    font_size: u8,
    pieces: Seq<(Seq<char>, TextStyle)>,
    block_length: u16,
    alignment: Alignment,
) -> bool {
    op matches RenderOperation::RenderBlockLine(l) && l.prefix.content@ == prefix && l.prefix.style
        == (TextStyle { size: font_size, ..TextStyle::plain() }) && l.right_padding_length == 0
        && !l.repeat_prefix_on_wrap && line_contents(l.text) == pieces && l.block_length
        == block_length && l.alignment == alignment && l.block_color is None
}

/// One step taken: a pause as `push_pause` makes it; or, for a line of text, the text at the
/// slide's font size and with its alignment (the element's, unless a comment set one), unless
/// it has no piece, and a line break.
pub open spec fn step_done(
    b: BuilderView,
    prelude: SlidePrelude,
    settings: BuilderSettings,
    step: BuildStep,
    after: BuilderView,
) -> bool {
    match step {
        BuildStep::Pause => if settings.pause_create_new_slide {
            paused_into_new_slide(b, prelude, after)
        } else {
            after == paused(b)
        },
        BuildStep::TextLine { pieces, style } => {
            let font = font_size_of(b.state, settings.font_size_supported);
            let alignment = match b.state.alignment {
                Some(a) => a,
                None => style.alignment,
            };
            let shown = pieces.map_values(
                |p: (Seq<char>, TextStyle)| slide_piece(p, style.inline_code_colors, font),
            );
            let n = b.operations.len();
            &&& after == (BuilderView { operations: after.operations, ..b })
            &&& after.operations.take(n as int) == b.operations
            &&& after.operations.last() is RenderLineBreak
            &&& if pieces.len() > 0 {
                &&& after.operations.len() == n + 2
                &&& (after.operations[n as int] matches RenderOperation::RenderText {
                    line,
                    alignment: a,
                } && line_contents(line) == shown && a == alignment)
            } else {
                after.operations.len() == n + 1
            }
        },
        BuildStep::Operation(op) => after == (BuilderView { operations: b.operations.push(op), ..b }),
        BuildStep::LineBreaks(n) => after == (BuilderView {
            operations: b.operations + line_breaks(n),
            ..b
        }),
        BuildStep::IgnoreFooter => after == (BuilderView {
            state: SlideState { ignore_footer: true, ..b.state },
            ..b
        }),
        BuildStep::Terminate => after == terminated(b, prelude),
        BuildStep::ListItem { index, depth, item_type, pieces, block_length, code_colors } => {
            let font = font_size_of(b.state, settings.font_size_supported);
            let alignment = match b.state.alignment {
                Some(a) => a,
                None => Alignment::Left { margin: Margin::Fixed(0) },
            };
            let newlines = match b.state.list_item_newlines {
                Some(count) => count,
                None => settings.list_item_newlines,
            };
            let state = if depth == 0 {
                SlideState { last_element: LastElement::List { last_index: index }, ..b.state }
            } else {
                b.state
            };
            let n = b.operations.len();
            &&& after == (BuilderView { operations: after.operations, state, ..b })
            &&& after.operations.len() == n + 1 + newlines
            &&& after.operations.take(n as int) == b.operations
            &&& after.operations.skip(n + 1 as int) == line_breaks(newlines as nat)
            &&& list_line(
                after.operations[n as int],
                list_item_prefix_text(depth, item_type, font),
                font,
                listed_pieces(pieces, code_colors, font),
                block_length,
                alignment,
            )
        },
    }
}

/// The builder's states as steps are taken: `views[i + 1]` is where step `i` leads from
/// `views[i]`.
pub open spec fn is_trace(
    prelude: SlidePrelude,
    settings: BuilderSettings,
    steps: Seq<BuildStep>,
    views: Seq<BuilderView>,
) -> bool {
    &&& views.len() == steps.len() + 1
    &&& forall|i: int|
        #![trigger steps[i], views[i]]
        0 <= i < steps.len() ==> step_done(views[i], prelude, settings, steps[i], views[i + 1])
}

/// Steps taken one after the other lead from `b` to `after`.
pub open spec fn steps_done(
    b: BuilderView,
    prelude: SlidePrelude,
    settings: BuilderSettings,
    steps: Seq<BuildStep>,
    after: BuilderView,
) -> bool {
    exists|views: Seq<BuilderView>|
        #[trigger] is_trace(prelude, settings, steps, views) && views[0] == b && views.last()
            == after
}

/// No step leaves the builder as it was.
pub proof fn lemma_no_steps(b: BuilderView, prelude: SlidePrelude, settings: BuilderSettings)
    ensures
        is_trace(prelude, settings, Seq::empty(), seq![b]),
        steps_done(b, prelude, settings, Seq::empty(), b),
{
    assert(is_trace(prelude, settings, Seq::empty(), seq![b]));
}

/// Steps taken after steps are the steps of both, one after the other.
pub proof fn lemma_steps_join(
    b: BuilderView,
    prelude: SlidePrelude,
    settings: BuilderSettings,
    first: Seq<BuildStep>,
    second: Seq<BuildStep>,
    mid: BuilderView,
    after: BuilderView,
)
    requires
        steps_done(b, prelude, settings, first, mid),
        steps_done(mid, prelude, settings, second, after),
    ensures
        steps_done(b, prelude, settings, first + second, after),
{
    let v1 = choose|views: Seq<BuilderView>|
        #[trigger] is_trace(prelude, settings, first, views) && views[0] == b && views.last() == mid;
    let v2 = choose|views: Seq<BuilderView>|
        #[trigger] is_trace(prelude, settings, second, views) && views[0] == mid && views.last()
            == after;
    let steps = first + second;
    let views = v1 + v2.drop_first();
    assert forall|i: int|
        #![trigger steps[i], views[i]]
        0 <= i < steps.len() implies step_done(views[i], prelude, settings, steps[i], views[i + 1]) by {
        if i < first.len() {
            assert(steps[i] == first[i] && views[i] == v1[i]);
            if i + 1 < v1.len() {
                assert(views[i + 1] == v1[i + 1]);
            } else {
                assert(views[i + 1] == v2[1]);
                assert(v1[i + 1] == mid);
            }
        } else {
            let j = i - first.len();
            assert(steps[i] == second[j]);
            if j == 0 {
                assert(views[i] == v1.last());
            } else {
                assert(views[i] == v2[j]);
            }
            assert(views[i + 1] == v2[j + 1]);
        }
    }
    assert(is_trace(prelude, settings, steps, views));
    if v2.len() == 1 {
        assert(views.last() == v1.last());
    } else {
        assert(views.last() == v2.last());
    }
}

/// One step taken is the steps of that one step.
pub proof fn lemma_single_step(
    b: BuilderView,
    prelude: SlidePrelude,
    settings: BuilderSettings,
    step: BuildStep,
    after: BuilderView,
)
    requires
        step_done(b, prelude, settings, step, after),
    ensures
        steps_done(b, prelude, settings, seq![step], after),
{
    lemma_no_steps(b, prelude, settings);
    lemma_trace_push(prelude, settings, Seq::empty(), seq![b], step, after);
    assert(Seq::<BuildStep>::empty().push(step) =~= seq![step]);
    assert(is_trace(prelude, settings, seq![step], seq![b].push(after)));
}

/// One more step taken extends a trace by the state it leads to.
pub proof fn lemma_trace_push(
    prelude: SlidePrelude,
    settings: BuilderSettings,
    steps: Seq<BuildStep>,
    views: Seq<BuilderView>,
    step: BuildStep,
    after: BuilderView,
)
    requires
        is_trace(prelude, settings, steps, views),
        step_done(views.last(), prelude, settings, step, after),
    ensures
        is_trace(prelude, settings, steps.push(step), views.push(after)),
        views.push(after)[0] == views[0],
        views.push(after).last() == after,
{
    let s2 = steps.push(step);
    let v2 = views.push(after);
    assert forall|i: int|
        #![trigger s2[i], v2[i]]
        0 <= i < s2.len() implies step_done(v2[i], prelude, settings, s2[i], v2[i + 1]) by {
        if i < steps.len() {
            assert(s2[i] == steps[i] && v2[i] == views[i] && v2[i + 1] == views[i + 1]);
        } else {
            assert(s2[i] == step && v2[i] == views.last() && v2[i + 1] == after);
        }
    }
}

impl PresentationBuilder {
    /// A pause, as one step.
    pub fn push_pause_step(&mut self)
        ensures
            step_done(
                old(self).view(),
                old(self).prelude,
                old(self).settings,
                BuildStep::Pause,
                final(self).view(),
            ),
            final(self).settings == old(self).settings,
            final(self).prelude == old(self).prelude,
    {
        self.push_pause();
    }

    /// An operation, as one step.
    pub fn push_operation_step(&mut self, op: RenderOperation)
        ensures
            step_done(
                old(self).view(),
                old(self).prelude,
                old(self).settings,
                BuildStep::Operation(op),
                final(self).view(),
            ),
            final(self).settings == old(self).settings,
            final(self).prelude == old(self).prelude,
    {
        self.chunk_operations.push(op);
    }

    /// Line breaks, as one step.
    pub fn push_line_breaks_step(&mut self, count: usize)
        ensures
            step_done(
                old(self).view(),
                old(self).prelude,
                old(self).settings,
                BuildStep::LineBreaks(count as nat),
                final(self).view(),
            ),
            final(self).settings == old(self).settings,
            final(self).prelude == old(self).prelude,
    {
        self.push_line_breaks(count);
    }

    /// Marks the slide as having no footer, as one step.
    pub fn ignore_footer_step(&mut self)
        ensures
            step_done(
                old(self).view(),
                old(self).prelude,
                old(self).settings,
                BuildStep::IgnoreFooter,
                final(self).view(),
            ),
            final(self).settings == old(self).settings,
            final(self).prelude == old(self).prelude,
    {
        self.slide_state.ignore_footer = true;
    }

    /// Ends the slide, as one step.
    pub fn terminate_step(&mut self)
        ensures
            step_done(
                old(self).view(),
                old(self).prelude,
                old(self).settings,
                BuildStep::Terminate,
                final(self).view(),
            ),
            final(self).settings == old(self).settings,
            final(self).prelude == old(self).prelude,
    {
        self.terminate_slide();
    }

    /// A line of text, drawn as the theme draws an element, then a line break.
    pub fn push_text_line(&mut self, line: &WeightedLine, style: ElementStyle)
        ensures
            step_done(
                old(self).view(),
                old(self).prelude,
                old(self).settings,
                BuildStep::TextLine { pieces: line_contents(*line), style },
                final(self).view(),
            ),
            final(self).settings == old(self).settings,
            final(self).prelude == old(self).prelude,
    {
        let font_size = self.slide_font_size();
        let alignment = match self.slide_state.alignment {
            Some(a) => a,
            None => style.alignment,
        };
        let ghost shown = line_contents(*line).map_values(
            |p: (Seq<char>, TextStyle)| slide_piece(p, style.inline_code_colors, font_size),
        );
        let mut chunks: Vec<Text> = Vec::new();
        let mut i: usize = 0;
        while i < line.chunks.len()
            invariant
                i <= line.chunks@.len(),
                shown == line_contents(*line).map_values(
                    |p: (Seq<char>, TextStyle)| slide_piece(p, style.inline_code_colors, font_size),
                ),
                chunks@.map_values(|t: Text| (t.content@, t.style)) == shown.take(i as int),
            decreases line.chunks@.len() - i,
        {
            let chunk = &line.chunks[i];
            let mut chunk_style = chunk.style;
            if chunk_style.is_code() {
                chunk_style = chunk_style.colors(style.inline_code_colors);
            }
            if font_size > 1 {
                chunk_style = chunk_style.size(font_size);
            }
            assert((chunk.content@, chunk_style) == slide_piece(
                line_contents(*line)[i as int],
                style.inline_code_colors,
                font_size,
            ));
            let ghost before = chunks@;
            chunks.push(Text { content: chunk.content.clone(), style: chunk_style });
            assert(chunks@.map_values(|t: Text| (t.content@, t.style)) =~= before.map_values(
                |t: Text| (t.content@, t.style),
            ).push(shown[i as int]));
            i += 1;
            assert(chunks@.map_values(|t: Text| (t.content@, t.style)) =~= shown.take(i as int));
        }
        assert(shown.take(i as int) =~= shown);
        let ghost before = self.chunk_operations@;
        if line.chunks.len() > 0 {
            self.chunk_operations.push(
                RenderOperation::RenderText { line: WeightedLine { chunks }, alignment },
            );
        }
        self.chunk_operations.push(RenderOperation::RenderLineBreak);
        assert(self.chunk_operations@.take(before.len() as int) =~= before);
    }
}

} // verus!
