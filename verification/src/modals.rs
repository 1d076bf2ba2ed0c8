//! The slide index: a box with a heading that lists the slides' titles, numbered, the current
//! one highlighted, in the middle of the screen.
use crate::code::{pad_right_spec, NumberPadder};
use crate::diff::line_contents;
use crate::operation::{MarginProperties, RenderOperation};
use crate::properties::WindowSize;
use crate::quote::{line_text_width, text_columns};
use crate::separator::{copy_texts, texts_view};
use crate::style::{merged_style, or_color, Colors, TextStyle, BOLD_FLAG};
use crate::table::{seq_max, spaces};
use crate::text::{cap_usize, display_width, str_display_width, Text, WeightedLine};
use crate::text_util::{decimal, lemma_decimal_monotone, repeat_char, str_chars, string_push};
use crate::theme::{Alignment, Margin};
use vstd::prelude::*;

verus! {

/// A piece of a modal's border.
#[derive(Clone, Copy, Debug, PartialEq, Eq, Structural)]
pub enum Border {
    Regular,
    Top,
    Separator,
    Bottom,
}

/// The characters at both ends of a border.
pub open spec fn border_edges(b: Border) -> (char, char) {
    match b {
        Border::Regular => ('│', '│'),
        Border::Top => ('┌', '┐'),
        Border::Separator => ('├', '┤'),
        Border::Bottom => ('└', '┘'),
    }
}

/// A horizontal border of the given length: its two ends with dashes between them.
pub open spec fn border_text(b: Border, length: u16) -> Seq<char> {
    let dashes: nat = if length >= 2 {
        (length - 2) as nat
    } else {
        0
    };
    seq![border_edges(b).0] + Seq::new(dashes, |_i: int| '─') + seq![border_edges(b).1]
}

/// A line of text with the given pieces, aligned to the left with no margin.
pub open spec fn plain_text_op(op: RenderOperation, pieces: Seq<(Seq<char>, TextStyle)>) -> bool {
    op matches RenderOperation::RenderText { line, alignment } && line_contents(line) == pieces
        && alignment == (Alignment::Left { margin: Margin::Fixed(0) })
}

/// A line of text at some place among operations, and a line break after it.
pub open spec fn line_at(ops: Seq<RenderOperation>, at: int, pieces: Seq<(Seq<char>, TextStyle)>) -> bool {
    &&& plain_text_op(ops[at], pieces)
    &&& ops[at + 1] is RenderLineBreak
}

impl Border {
    /// The characters at both ends of this border.
    pub fn edges(&self) -> (e: (char, char))
        ensures
            e == border_edges(*self),
    {
        match self {
            Border::Regular => ('│', '│'),
            Border::Top => ('┌', '┐'),
            Border::Separator => ('├', '┤'),
            Border::Bottom => ('└', '┘'),
        }
    }

    /// A horizontal border as wide as a modal's content, and a line break.
    pub fn render_line(&self, content_length: u16) -> (ops: Vec<RenderOperation>)
        ensures
            ops@.len() == 2,
            line_at(ops@, 0, seq![(border_text(*self, content_length), TextStyle::plain())]),
    {
        let (opening, closing) = self.edges();
        let mut line = String::new();
        string_push(&mut line, opening);
        let dashes = content_length.saturating_sub(2);
        let mut i: u16 = 0;
        while i < dashes
            invariant
                i <= dashes,
                line@ == seq![opening] + Seq::new(i as nat, |_i: int| '─'),
            decreases dashes - i,
        {
            string_push(&mut line, '─');
            i += 1;
            assert(line@ =~= seq![opening] + Seq::new(i as nat, |_i: int| '─'));
        }
        string_push(&mut line, closing);
        assert(line@ =~= border_text(*self, content_length));
        let text = Text { content: line, style: TextStyle::default() };
        let ghost piece = (text.content@, text.style);
        let weighted = WeightedLine::from_text(text);
        assert(line_contents(weighted) =~= seq![piece]);
        let mut ops: Vec<RenderOperation> = Vec::new();
        ops.push(RenderOperation::RenderText { line: weighted, alignment: Alignment::default() });
        ops.push(RenderOperation::RenderLineBreak);
        ops
    }
}

/// A row of a modal: its left border, its content, and the padding and right border.
#[derive(Clone, Debug)]
pub struct ContentRow {
    pub prefix: Text,
    pub content: Vec<Text>,
    pub suffix: Text,
}

/// The pieces of a modal's row.
pub open spec fn content_row_pieces(r: ContentRow) -> Seq<(Seq<char>, TextStyle)> {
    seq![(r.prefix.content@, r.prefix.style)] + texts_view(r.content@) + seq![
        (r.suffix.content@, r.suffix.style),
    ]
}

/// Pieces of text with a style merged into each.
pub open spec fn styled_pieces(pieces: Seq<(Seq<char>, TextStyle)>, style: TextStyle) -> Seq<
    (Seq<char>, TextStyle),
> {
    pieces.map_values(|p: (Seq<char>, TextStyle)| (p.0, merged_style(p.1, style)))
}

/// A copy of a piece of text.
fn copy_text(t: &Text) -> (c: Text)
    ensures
        c.content@ == t.content@,
        c.style == t.style,
{
    Text { content: t.content.clone(), style: t.style }
}

impl ContentRow {
    /// This row with a style merged into its content, not into its borders.
    pub fn with_style(&self, style: TextStyle) -> (r: ContentRow)
        ensures
            content_row_pieces(r) == seq![(self.prefix.content@, self.prefix.style)] + styled_pieces(
                texts_view(self.content@),
                style,
            ) + seq![(self.suffix.content@, self.suffix.style)],
    {
        let ghost expected = styled_pieces(texts_view(self.content@), style);
        let mut content: Vec<Text> = Vec::new();
        let mut i: usize = 0;
        while i < self.content.len()
            invariant
                i <= self.content@.len(),
                expected == styled_pieces(texts_view(self.content@), style),
                texts_view(content@) == expected.take(i as int),
            decreases self.content@.len() - i,
        {
            let t = &self.content[i];
            let ghost before = content@;
            content.push(Text { content: t.content.clone(), style: t.style.merged(&style) });
            assert(texts_view(content@) =~= texts_view(before).push(expected[i as int]));
            i += 1;
            assert(texts_view(content@) =~= expected.take(i as int));
        }
        assert(expected.take(i as int) =~= expected);
        ContentRow { prefix: copy_text(&self.prefix), content, suffix: copy_text(&self.suffix) }
    }

    /// A copy of this row.
    pub fn copy(&self) -> (r: ContentRow)
        ensures
            content_row_pieces(r) == content_row_pieces(*self),
    {
        ContentRow {
            prefix: copy_text(&self.prefix),
            content: copy_texts(&self.content),
            suffix: copy_text(&self.suffix),
        }
    }

    /// The line of this row.
    pub fn build(&self) -> (l: WeightedLine)
        ensures
            line_contents(l) == content_row_pieces(*self),
    {
        let mut chunks: Vec<Text> = Vec::new();
        chunks.push(copy_text(&self.prefix));
        let mut middle = copy_texts(&self.content);
        chunks.append(&mut middle);
        chunks.push(copy_text(&self.suffix));
        let l = WeightedLine { chunks };
        assert(line_contents(l) =~= content_row_pieces(*self));
        l
    }
}

/// The left border of a modal's row: the border and two spaces.
pub open spec fn row_opening() -> Seq<char> {
    seq!['│', ' ', ' ']
}

/// A modal's row with the given content: the left border, the content, then spaces up to one
/// column before the modal's width and the right border.
pub open spec fn modal_row_pieces(pieces: Seq<(Seq<char>, TextStyle)>, content_width: u16) -> Seq<
    (Seq<char>, TextStyle),
> {
    let total = cap_usize(
        cap_usize(text_columns(pieces)) as nat + str_display_width(row_opening()) as nat,
    );
    let missing: nat = if content_width - 1 > total {
        (content_width - 1 - total) as nat
    } else {
        0
    };
    seq![(row_opening(), TextStyle::plain())] + pieces + seq![
        (spaces(missing) + seq!['│'], TextStyle::plain()),
    ]
}

/// A text centered among as many columns as the longest line takes, by spaces on both sides.
pub open spec fn centered(text: Seq<char>, longest: usize) -> Seq<char> {
    let missing: nat = if longest > text.len() {
        (longest - text.len()) as nat
    } else {
        0
    };
    spaces(missing / 2) + text + spaces(missing / 2)
}

/// The number of columns a line takes, whatever its font size, capped at `usize::MAX`.
pub open spec fn line_columns(l: WeightedLine) -> usize {
    cap_usize(text_columns(line_contents(l)))
}

/// The length of a modal's longest line: its widest content line and its heading, each
/// truncated to 16 bits, and at least 12.
pub open spec fn modal_longest(heading: Seq<char>, content: Seq<WeightedLine>) -> u16 {
    let widest = seq_max(content.map_values(|l: WeightedLine| line_columns(l))) as u16;
    let heading_length = heading.len() as u16;
    let longest = if widest > heading_length {
        widest
    } else {
        heading_length
    };
    if longest > 12 {
        longest
    } else {
        12
    }
}

/// The width of a modal: its longest line, two spaces and a border on both sides, at most
/// `u16::MAX`.
pub open spec fn modal_width(longest: u16) -> u16 {
    if longest + 6 > u16::MAX {
        u16::MAX
    } else {
        (longest + 6) as u16
    }
}

/// A modal: a heading above lines of content.
pub struct ModalBuilder {
    pub heading: String,
    pub content: Vec<WeightedLine>,
}

/// A modal's rows and width, and its colors.
pub struct ModalContent {
    pub colors: Colors,
    pub heading: ContentRow,
    pub content: Vec<ContentRow>,
    pub content_width: u16,
}

impl ModalBuilder {
    /// A modal with a heading and no content yet.
    pub fn new(heading: &str) -> (m: Self)
        ensures
            m.heading@ == heading@,
            m.content@.len() == 0,
    {
        let chars = str_chars(heading);
        ModalBuilder { heading: crate::text_util::string_from_chars(chars.as_slice()), content: Vec::new() }
    }

    /// A text centered among as many columns as the longest line takes.
    fn center_line(text: &str, longest_line: usize) -> (s: String)
        ensures
            s@ == centered(text@, longest_line),
    {
        let chars = str_chars(text);
        let missing = longest_line.saturating_sub(chars.len());
        let padding = missing / 2;
        let mut output = repeat_char(' ', padding);
        let mut i: usize = 0;
        while i < chars.len()
            invariant
                i <= chars@.len(),
                chars@ == text@,
                output@ == spaces(padding as nat) + chars@.take(i as int),
            decreases chars@.len() - i,
        {
            string_push(&mut output, chars[i]);
            i += 1;
            assert(output@ =~= spaces(padding as nat) + chars@.take(i as int));
        }
        let ghost with_text = output@;
        let mut j: usize = 0;
        while j < padding
            invariant
                j <= padding,
                output@ == with_text + spaces(j as nat),
            decreases padding - j,
        {
            string_push(&mut output, ' ');
            j += 1;
            assert(output@ =~= with_text + spaces(j as nat));
        }
        assert(chars@.take(i as int) =~= text@);
        output
    }

    /// A row of a modal of the given width with the given content.
    fn build_line(chunks: Vec<Text>, content_width: u16) -> (r: ContentRow)
        requires
            content_width >= 1,
        ensures
            content_row_pieces(r) == modal_row_pieces(texts_view(chunks@), content_width),
    {
        let (opening, closing) = Border::Regular.edges();
        let mut opening_text = String::new();
        string_push(&mut opening_text, opening);
        string_push(&mut opening_text, ' ');
        string_push(&mut opening_text, ' ');
        assert(opening_text@ =~= row_opening());
        let ghost pieces = texts_view(chunks@);
        let line = WeightedLine { chunks };
        assert(line_contents(line) =~= pieces);
        let opening_width = display_width(opening_text.as_str());
        let total_width = line_text_width(&line).saturating_add(opening_width);
        assert(total_width == cap_usize(
            cap_usize(text_columns(pieces)) as nat + str_display_width(row_opening()) as nat,
        ));
        let missing = (content_width as usize - 1).saturating_sub(total_width);
        let mut suffix = repeat_char(' ', missing);
        string_push(&mut suffix, closing);
        assert(suffix@ =~= spaces(missing as nat) + seq!['│']);
        let row = ContentRow {
            prefix: Text { content: opening_text, style: TextStyle::default() },
            content: line.chunks,
            suffix: Text { content: suffix, style: TextStyle::default() },
        };
        assert(texts_view(row.content@) == pieces);
        assert(content_row_pieces(row) =~= modal_row_pieces(pieces, content_width));
        row
    }

    /// The rows of this modal: the heading centered, then the content, all as wide as the
    /// modal, which is as wide as its longest line and six more columns.
    pub fn build(self, colors: Colors) -> (m: ModalContent)
        ensures
            m.colors == colors,
            m.content_width == modal_width(modal_longest(self.heading@, self.content@)),
            content_row_pieces(m.heading) == modal_row_pieces(
                seq![
                    (centered(
                        self.heading@,
                        modal_longest(self.heading@, self.content@) as usize,
                    ), TextStyle::plain()),
                ],
                m.content_width,
            ),
            m.content@.len() == self.content@.len(),
            forall|i: int|
                0 <= i < self.content@.len() ==> content_row_pieces(#[trigger] m.content@[i])
                    == modal_row_pieces(line_contents(self.content@[i]), m.content_width),
    {
        let ghost widths = self.content@.map_values(|l: WeightedLine| line_columns(l));
        let mut widest: usize = 0;
        let mut k: usize = 0;
        assert(widths.take(0) =~= Seq::<usize>::empty());
        while k < self.content.len()
            invariant
                k <= self.content@.len(),
                widths == self.content@.map_values(|l: WeightedLine| line_columns(l)),
                widest == seq_max(widths.take(k as int)),
            decreases self.content@.len() - k,
        {
            let w = line_text_width(&self.content[k]);
            assert(widths.take(k + 1).drop_last() =~= widths.take(k as int));
            if w > widest {
                widest = w;
            }
            k += 1;
        }
        assert(widths.take(k as int) =~= widths);
        let heading_chars = str_chars(self.heading.as_str());
        let mut longest: u16 = #[verifier::truncate] (widest as u16);
        let heading_length: u16 = #[verifier::truncate] (heading_chars.len() as u16);
        if heading_length > longest {
            longest = heading_length;
        }
        if longest < 12 {
            longest = 12;
        }
        let content_width = longest.saturating_add(6);
        assert(longest == modal_longest(self.heading@, self.content@));
        let heading = Self::center_line(self.heading.as_str(), longest as usize);
        let ghost heading_text = heading@;
        let mut heading_chunks: Vec<Text> = Vec::new();
        heading_chunks.push(Text { content: heading, style: TextStyle::default() });
        assert(texts_view(heading_chunks@) =~= seq![(heading_text, TextStyle::plain())]);
        let heading_row = Self::build_line(heading_chunks, content_width);
        let mut content: Vec<ContentRow> = Vec::new();
        let mut i: usize = 0;
        while i < self.content.len()
            invariant
                i <= self.content@.len(),
                content_width >= 1,
                content@.len() == i,
                forall|j: int|
                    0 <= j < i ==> content_row_pieces(#[trigger] content@[j]) == modal_row_pieces(
                        line_contents(self.content@[j]),
                        content_width,
                    ),
            decreases self.content@.len() - i,
        {
            let chunks = copy_texts(&self.content[i].chunks);
            content.push(Self::build_line(chunks, content_width));
            i += 1;
        }
        ModalContent { colors, heading: heading_row, content, content_width }
    }
}

/// What the slide index shows of a slide's title: its number, padded to the width of the
/// largest number, and a colon, then the title.
pub open spec fn numbered_title(title: WeightedLine, index: int, count: nat) -> Seq<
    (Seq<char>, TextStyle),
> {
    seq![
        (pad_right_spec((index + 1) as nat, decimal(count).len()) + seq![':', ' '], TextStyle::plain()),
    ] + line_contents(title)
}

/// The titles of the slides, as they are added.
pub struct IndexBuilder {
    pub titles: Vec<WeightedLine>,
}

/// The slide index: its colors, heading, a row per slide, its width, and the style of the
/// current slide's row.
pub struct IndexDrawer {
    pub colors: Colors,
    pub heading: ContentRow,
    pub rows: Vec<ContentRow>,
    pub content_width: u16,
    pub selection_style: TextStyle,
}

impl IndexBuilder {
    /// No title yet.
    pub fn new() -> (b: Self)
        ensures
            b.titles@.len() == 0,
    {
        IndexBuilder { titles: Vec::new() }
    }

    /// Adds the title of the next slide.
    pub fn add_title(&mut self, title: WeightedLine)
        ensures
            final(self).titles@ == old(self).titles@.push(title),
    {
        self.titles.push(title);
    }

    /// The slide index: a modal headed "Slides" with a numbered row per title, in the modal's
    /// colors (the default ones where those are missing), the current slide in bold and in the
    /// selection colors.
    pub fn build(self, modal_colors: Colors, default_colors: Colors, selection_colors: Colors) -> (d: IndexDrawer)
        ensures
            d.colors == (Colors {
                background: or_color(modal_colors.background, default_colors.background),
                foreground: or_color(modal_colors.foreground, default_colors.foreground),
            }),
            d.selection_style == (TextStyle {
                flags: BOLD_FLAG,
                colors: selection_colors,
                ..TextStyle::plain()
            }),
            d.rows@.len() == self.titles@.len(),
            exists|lines: Seq<WeightedLine>|
                #[trigger] index_lines(lines, self.titles@, self.titles@.len()) && d.content_width == modal_width(
                    modal_longest("Slides"@, lines),
                ) && content_row_pieces(d.heading) == modal_row_pieces(
                    seq![
                        (centered("Slides"@, modal_longest("Slides"@, lines) as usize), TextStyle::plain()),
                    ],
                    d.content_width,
                ) && forall|i: int|
                    0 <= i < lines.len() ==> content_row_pieces(#[trigger] d.rows@[i])
                        == modal_row_pieces(line_contents(lines[i]), d.content_width),
    {
        let mut builder = ModalBuilder::new("Slides");
        let count = self.titles.len();
        let padder = NumberPadder::new(count);
        let mut index: usize = 0;
        while index < count
            invariant
                count == self.titles@.len(),
                index <= count,
                padder.width == decimal(count as nat).len(),
                builder.heading@ == "Slides"@,
                index_lines(builder.content@, self.titles@.take(index as int), count as nat),
            decreases count - index,
        {
            proof {
                lemma_decimal_monotone((index + 1) as nat, count as nat);
            }
            let mut number = padder.pad_right(index + 1);
            string_push(&mut number, ':');
            string_push(&mut number, ' ');
            let ghost number_text = number@;
            assert(number_text =~= pad_right_spec((index + 1) as nat, decimal(count as nat).len())
                + seq![':', ' ']);
            let mut chunks: Vec<Text> = Vec::new();
            chunks.push(Text { content: number, style: TextStyle::default() });
            let mut rest = copy_texts(&self.titles[index].chunks);
            chunks.append(&mut rest);
            let ghost before = builder.content@;
            let numbered = WeightedLine { chunks };
            assert(line_contents(numbered) =~= numbered_title(
                self.titles@[index as int],
                index as int,
                count as nat,
            ));
            builder.content.push(numbered);
            index += 1;
            proof {
                let lines = builder.content@;
                let titles = self.titles@.take(index as int);
                assert forall|i: int| 0 <= i < lines.len() implies line_contents(#[trigger] lines[i])
                    == numbered_title(titles[i], i, count as nat) by {
                    if i < lines.len() - 1 {
                        assert(lines[i] == before[i]);
                        assert(titles[i] == self.titles@.take(index - 1)[i]);
                    }
                }
            }
        }
        assert(self.titles@.take(count as int) =~= self.titles@);
        let colors = modal_colors.merge(&default_colors);
        let selection_style = TextStyle::default().colors(selection_colors).bold();
        assert((0u8 | BOLD_FLAG) == BOLD_FLAG) by (bit_vector);
        let ghost lines = builder.content@;
        let modal = builder.build(colors);
        IndexDrawer {
            colors: modal.colors,
            heading: modal.heading,
            rows: modal.content,
            content_width: modal.content_width,
            selection_style,
        }
    }
}

/// The lines of the slide index: each title numbered.
pub open spec fn index_lines(lines: Seq<WeightedLine>, titles: Seq<WeightedLine>, count: nat) -> bool {
    &&& lines.len() == titles.len()
    &&& forall|i: int|
        0 <= i < lines.len() ==> line_contents(#[trigger] lines[i]) == numbered_title(
            titles[i],
            i,
            count,
        )
}

/// The rows of the slide index that are shown: at most four fifths of the screen's rows
/// (whatever a count truncated to 16 bits leaves); when there are more slides, as many as fit
/// around the current slide, at most half of them before it.
pub open spec fn visible_range(count: nat, current: usize, rows: u16) -> (int, int) {
    let max_rows = (rows * 4 / 5) as u16;
    let count16 = count as u16;
    if count16 > max_rows {
        let current16 = current as u16;
        let half = max_rows / 2;
        let from = if current16 > half {
            current16 - half
        } else {
            0
        };
        let start = if from < count16 - max_rows {
            from
        } else {
            count16 - max_rows
        };
        (start as int, max_rows as int)
    } else {
        (0, count as int)
    }
}

/// Where the slide index goes: centered horizontally, and vertically for as many rows as are
/// shown, its heading and its borders.
pub open spec fn index_layout(dimensions: WindowSize, content_width: u16, visible: int) -> Seq<
    RenderOperation,
> {
    let margin = (if dimensions.columns > content_width {
        dimensions.columns - content_width
    } else {
        0
    }) / 2;
    let height = (visible + 4) as u16;
    let target = (if dimensions.rows > height {
        dimensions.rows - height
    } else {
        0
    }) / 2;
    seq![
        RenderOperation::ApplyMargin(
            MarginProperties { horizontal: Margin::Fixed(margin as u16), top: 0, bottom: 0 },
        ),
        RenderOperation::JumpToRow { index: target as u16 },
    ]
}

/// What the slide index shows of a slide's row: the current slide's in the selection style.
pub open spec fn shown_row(d: IndexDrawer, i: int, current: usize) -> Seq<(Seq<char>, TextStyle)> {
    let r = d.rows@[i];
    if i == current {
        seq![(r.prefix.content@, r.prefix.style)] + styled_pieces(
            texts_view(r.content@),
            d.selection_style,
        ) + seq![(r.suffix.content@, r.suffix.style)]
    } else {
        content_row_pieces(r)
    }
}

/// The `k`th row shown, of those from `from` on.
pub open spec fn index_row_at(
    ops: Seq<RenderOperation>,
    d: IndexDrawer,
    from: int,
    k: int,
    current: usize,
) -> bool {
    line_at(ops, 9 + 2 * k, shown_row(d, from + k, current))
}

/// What the slide index draws: its place, its colors, the top border, the heading, a
/// separator, the rows shown, and the bottom border.
pub open spec fn index_operations(
    d: IndexDrawer,
    dimensions: WindowSize,
    current: usize,
    ops: Seq<RenderOperation>,
) -> bool {
    let count = d.rows@.len() as int;
    let (skip, take) = visible_range(d.rows@.len(), current, dimensions.rows);
    let end = if skip + take < count {
        skip + take
    } else {
        count
    };
    let shown = end - skip;
    &&& 0 <= skip <= end
    &&& ops.len() == 11 + 2 * shown
    &&& ops.take(2) == index_layout(dimensions, d.content_width, take)
    &&& ops[2] == RenderOperation::SetColors(d.colors)
    &&& line_at(ops, 3, seq![(border_text(Border::Top, d.content_width), TextStyle::plain())])
    &&& line_at(ops, 5, content_row_pieces(d.heading))
    &&& line_at(
        ops,
        7,
        seq![(border_text(Border::Separator, d.content_width), TextStyle::plain())],
    )
    &&& forall|k: int| 0 <= k < shown ==> #[trigger] index_row_at(ops, d, skip, k, current)
    &&& line_at(
        ops,
        9 + 2 * shown,
        seq![(border_text(Border::Bottom, d.content_width), TextStyle::plain())],
    )
}

impl IndexDrawer {
    /// Where the slide index goes, for so many rows.
    fn initialize_layout(&self, dimensions: WindowSize, visible_titles: usize) -> (ops: Vec<RenderOperation>)
        ensures
            ops@ == index_layout(dimensions, self.content_width, visible_titles as int),
    {
        let margin = dimensions.columns.saturating_sub(self.content_width) / 2;
        let properties = MarginProperties { horizontal: Margin::Fixed(margin), top: 0, bottom: 0 };
        let low: u16 = #[verifier::truncate] (visible_titles as u16);
        let wide: u32 = low as u32 + 4;
        let content_height: u16 = #[verifier::truncate] (wide as u16);
        assert(content_height == ((visible_titles + 4) as u16)) by (bit_vector)
            requires
                low == visible_titles as u16,
                wide == low as u32 + 4,
                content_height == wide as u16,
        ;
        let target_row = dimensions.rows.saturating_sub(content_height) / 2;
        let mut ops: Vec<RenderOperation> = Vec::new();
        ops.push(RenderOperation::ApplyMargin(properties));
        ops.push(RenderOperation::JumpToRow { index: target_row });
        assert(ops@ =~= index_layout(dimensions, self.content_width, visible_titles as int));
        ops
    }

    /// What the slide index draws on a screen, the given slide being the current one.
    pub fn as_render_operations(&self, dimensions: WindowSize, current_slide_index: usize) -> (ops: Vec<RenderOperation>)
        ensures
            index_operations(*self, dimensions, current_slide_index, ops@),
    {
        let count = self.rows.len();
        let max_rows: u16 = ((dimensions.rows as u32) * 4 / 5) as u16;
        let count16: u16 = #[verifier::truncate] (count as u16);
        let (skip, take): (usize, usize) = if count16 > max_rows {
            let current16: u16 = #[verifier::truncate] (current_slide_index as u16);
            let start = current16.saturating_sub(max_rows / 2);
            let start = if start < count16 - max_rows {
                start
            } else {
                count16 - max_rows
            };
            (start as usize, max_rows as usize)
        } else {
            (0, count)
        };
        assert((skip as int, take as int) == visible_range(count as nat, current_slide_index, dimensions.rows));
        let end = if take < count - skip {
            skip + take
        } else {
            count
        };
        let mut ops = self.initialize_layout(dimensions, take);
        let ghost layout = ops@;
        ops.push(RenderOperation::SetColors(self.colors));
        let mut top = Border::Top.render_line(self.content_width);
        ops.append(&mut top);
        ops.push(
            RenderOperation::RenderText { line: self.heading.build(), alignment: Alignment::default() },
        );
        ops.push(RenderOperation::RenderLineBreak);
        let mut separator = Border::Separator.render_line(self.content_width);
        ops.append(&mut separator);
        let ghost head = ops@;
        assert(head.take(2) =~= layout);
        assert(line_at(head, 3, seq![(border_text(Border::Top, self.content_width), TextStyle::plain())]));
        let mut i: usize = skip;
        while i < end
            invariant
                skip <= i <= end <= count,
                count == self.rows@.len(),
                head.len() == 9,
                ops@.len() == 9 + 2 * (i - skip),
                ops@.take(9) == head,
                forall|k: int|
                    0 <= k < i - skip ==> #[trigger] index_row_at(
                        ops@,
                        *self,
                        skip as int,
                        k,
                        current_slide_index,
                    ),
            decreases end - i,
        {
            let row = if i == current_slide_index {
                self.rows[i].with_style(self.selection_style)
            } else {
                self.rows[i].copy()
            };
            let ghost before = ops@;
            ops.push(RenderOperation::RenderText { line: row.build(), alignment: Alignment::default() });
            ops.push(RenderOperation::RenderLineBreak);
            proof {
                let after = ops@;
                assert(after.take(9) =~= head);
                assert forall|k: int| 0 <= k < i + 1 - skip implies #[trigger] index_row_at(
                    after,
                    *self,
                    skip as int,
                    k,
                    current_slide_index,
                ) by {
                    if k < i - skip {
                        assert(index_row_at(before, *self, skip as int, k, current_slide_index));
                        assert(after[9 + 2 * k] == before[9 + 2 * k]);
                        assert(after[9 + 2 * k + 1] == before[9 + 2 * k + 1]);
                    }
                }
            }
            i += 1;
        }
        let ghost rows_done = ops@;
        let mut bottom = Border::Bottom.render_line(self.content_width);
        ops.append(&mut bottom);
        proof {
            let all = ops@;
            let shown = (end - skip) as int;
            assert(all.take(9) =~= head);
            assert(all.take(2) =~= head.take(2));
            assert(all[2] == head[2]);
            assert(all[3] == head[3] && all[4] == head[4]);
            assert(all[5] == head[5] && all[6] == head[6]);
            assert(all[7] == head[7] && all[8] == head[8]);
            assert forall|k: int| 0 <= k < shown implies #[trigger] index_row_at(
                all,
                *self,
                skip as int,
                k,
                current_slide_index,
            ) by {
                assert(index_row_at(rows_done, *self, skip as int, k, current_slide_index));
                assert(all[9 + 2 * k] == rows_done[9 + 2 * k]);
                assert(all[9 + 2 * k + 1] == rows_done[9 + 2 * k + 1]);
            }
        }
        ops
    }
}

} // verus!
