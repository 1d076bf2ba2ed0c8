//! Block quotes and alerts: lines drawn in a block behind a prefix, in the quote's colors.
use crate::builder::{font_size_of, BuilderView, PresentationBuilder};
use crate::diff::line_contents;
use crate::operation::{BlockLine, RenderOperation};
use crate::separator::texts_view;
use crate::style::{flag_set, Color, Colors, TextStyle, CODE_FLAG};
use crate::table::seq_max;
use crate::text::{cap_usize, display_width, str_display_width, Text, WeightedLine};
use crate::text_util::{str_chars, string_push};
use crate::theme::Alignment;
use vstd::prelude::*;

verus! {

/// How a quote is drawn: the prefix in front of every line and its style, the colors of the
/// quoted text, and the alignment.
#[derive(Clone, Debug)]
pub struct QuoteStyle {
    pub prefix: String,
    pub prefix_style: TextStyle,
    pub base_colors: Colors,
    pub alignment: Alignment,
}

/// The kind of an alert.
#[derive(Clone, Copy, Debug, PartialEq, Eq, Structural)]
pub enum AlertType {
    Note,
    Tip,
    Important,
    Warning,
    Caution,
}

/// How an alert of one kind is drawn: its icon, the title it has when it names none, and the
/// style of that title and of the prefix.
#[derive(Clone, Debug)]
pub struct AlertStyle {
    pub icon: String,
    pub title: String,
    pub style: TextStyle,
}

/// How alerts are drawn: the prefix in front of every line, the colors of the text, the
/// alignment, and the style of each kind.
#[derive(Clone, Debug)]
pub struct AlertTheme {
    pub prefix: String,
    pub base_colors: Colors,
    pub alignment: Alignment,
    pub note: AlertStyle,
    pub tip: AlertStyle,
    pub important: AlertStyle,
    pub warning: AlertStyle,
    pub caution: AlertStyle,
}

/// The style of an alert of a kind.
pub open spec fn alert_style(theme: AlertTheme, kind: AlertType) -> AlertStyle {
    match kind {
        AlertType::Note => theme.note,
        AlertType::Tip => theme.tip,
        AlertType::Important => theme.important,
        AlertType::Warning => theme.warning,
        AlertType::Caution => theme.caution,
    }
}

/// An alert is drawn in the style of its own kind in the theme: its title line is that kind's
/// icon, a space and its title (or the title given), in that kind's style, which the prefix
/// takes too; the quoted lines follow an empty line.
pub proof fn lemma_alert_drawn_in_its_kind_style(
    theme: AlertTheme,
    kind: AlertType,
    title: Option<Seq<char>>,
    lines: Seq<Seq<(Seq<char>, TextStyle)>>,
)
    ensures
        ({
            let own = match kind {
                AlertType::Note => theme.note,
                AlertType::Tip => (theme.tip),
                AlertType::Important => (theme.important),
                AlertType::Warning => (theme.warning),
                AlertType::Caution => (theme.caution),
            };
            let name = match title {
                Some(t) => t,
                None => own.title@,
            };
            let drawn = alert_lines(alert_style(theme, kind), title, lines);
            &&& drawn.len() == lines.len() + 2
            &&& drawn[0] == seq![(own.icon@ + seq![' '] + name, own.style)]
            &&& alert_style(theme, kind).style == own.style
            &&& drawn.skip(2) == lines
        }),
        kind is Tip ==> alert_lines(alert_style(theme, kind), None, lines)[0] == seq![
            (theme.tip.icon@ + seq![' '] + theme.tip.title@, theme.tip.style),
        ],
        kind is Note ==> alert_lines(alert_style(theme, kind), None, lines)[0] == seq![
            (theme.note.icon@ + seq![' '] + theme.note.title@, theme.note.style),
        ],
        kind is Important ==> alert_lines(alert_style(theme, kind), None, lines)[0] == seq![
            (theme.important.icon@ + seq![' '] + theme.important.title@, theme.important.style),
        ],
        kind is Warning ==> alert_lines(alert_style(theme, kind), None, lines)[0] == seq![
            (theme.warning.icon@ + seq![' '] + theme.warning.title@, theme.warning.style),
        ],
        kind is Caution ==> alert_lines(alert_style(theme, kind), None, lines)[0] == seq![
            (theme.caution.icon@ + seq![' '] + theme.caution.title@, theme.caution.style),
        ],
{
    let drawn = alert_lines(alert_style(theme, kind), title, lines);
    assert(drawn.skip(2) =~= lines);
}

/// The number of columns that the text of some pieces takes, whatever their font size.
pub open spec fn text_columns(pieces: Seq<(Seq<char>, TextStyle)>) -> nat
    decreases pieces.len(),
{
    if pieces.len() == 0 {
        0
    } else {
        text_columns(pieces.drop_last()) + str_display_width(pieces.last().0) as nat
    }
}

/// The number of columns that the text of a line takes, whatever its font size, capped at
/// `usize::MAX`.
pub fn line_text_width(line: &WeightedLine) -> (w: usize)
    ensures
        w == cap_usize(text_columns(line_contents(*line))),
{
    let ghost pieces = line_contents(*line);
    let mut total: usize = 0;
    let mut i: usize = 0;
    while i < line.chunks.len()
        invariant
            i <= line.chunks@.len(),
            pieces == line_contents(*line),
            total == cap_usize(text_columns(pieces.take(i as int))),
        decreases line.chunks@.len() - i,
    {
        let w = display_width(line.chunks[i].content.as_str());
        assert(pieces.take(i + 1).drop_last() =~= pieces.take(i as int));
        total = total.saturating_add(w);
        i += 1;
    }
    assert(pieces.take(i as int) =~= pieces);
    total
}

/// The width of a quote's block: that of its widest line, whatever its font size, with the
/// prefix, truncated to 16 bits.
pub open spec fn quote_block_length(lines: Seq<Seq<(Seq<char>, TextStyle)>>, prefix: Seq<char>) -> u16 {
    seq_max(
        lines.map_values(
            |l: Seq<(Seq<char>, TextStyle)>| cap_usize(
                cap_usize(text_columns(l)) as nat + str_display_width(prefix) as nat,
            ),
        ),
    ) as u16
}

/// A piece of quoted text: uncolored text takes the quote's colors, or the theme's colors for
/// inline code; every piece takes the slide's font size.
pub open spec fn quoted_piece(
    piece: (Seq<char>, TextStyle),
    base_colors: Colors,
    code_colors: Colors,
    font_size: u8,
) -> (Seq<char>, TextStyle) {
    let uncolored = piece.1.colors.background is None && piece.1.colors.foreground is None;
    let colors = if !uncolored {
        piece.1.colors
    } else if flag_set(piece.1.flags, CODE_FLAG) {
        code_colors
    } else {
        base_colors
    };
    (piece.0, TextStyle { colors, size: font_size, ..piece.1 })
}

/// The pieces of a quoted line.
pub open spec fn quoted_pieces(
    pieces: Seq<(Seq<char>, TextStyle)>,
    base_colors: Colors,
    code_colors: Colors,
    font_size: u8,
) -> Seq<(Seq<char>, TextStyle)> {
    pieces.map_values(
        |p: (Seq<char>, TextStyle)| quoted_piece(p, base_colors, code_colors, font_size),
    )
}

/// A quoted line: the prefix, the quoted pieces, not repeated on wrap, in a block of the given
/// length and alignment, with the quote's background.
pub open spec fn quoted_line(
    op: RenderOperation,
    prefix: (Seq<char>, TextStyle),
    pieces: Seq<(Seq<char>, TextStyle)>,
    block_length: u16,
    alignment: Alignment,
    block_color: Option<Color>,
) -> bool {
    op matches RenderOperation::RenderBlockLine(l) && (l.prefix.content@, l.prefix.style) == prefix
        && l.right_padding_length == 0 && l.repeat_prefix_on_wrap && line_contents(l.text) == pieces
        && l.block_length == block_length && l.alignment == alignment && l.block_color == block_color
}

/// A quoted line, and a line break after it, at some place among operations.
pub open spec fn quoted_at(
    ops: Seq<RenderOperation>,
    at: int,
    prefix: (Seq<char>, TextStyle),
    pieces: Seq<(Seq<char>, TextStyle)>,
    block_length: u16,
    alignment: Alignment,
    block_color: Option<Color>,
) -> bool {
    &&& quoted_line(ops[at], prefix, pieces, block_length, alignment, block_color)
    &&& ops[at + 1] is RenderLineBreak
}

/// What a quote adds to the pending operations: for every line, a block line and a line break;
/// then the theme's default colors again.
pub open spec fn quote_operations(
    before: Seq<RenderOperation>,
    after: Seq<RenderOperation>,
    lines: Seq<Seq<(Seq<char>, TextStyle)>>,
    quote: QuoteStyle,
    code_colors: Colors,
    default_colors: Colors,
    font_size: u8,
) -> bool {
    let n = before.len() as int;
    let prefix = (quote.prefix@, TextStyle { size: font_size, ..quote.prefix_style });
    let block_length = quote_block_length(lines, quote.prefix@);
    &&& after.len() == n + 2 * lines.len() + 1
    &&& after.take(n) == before
    &&& forall|i: int|
        #![trigger lines[i]]
        0 <= i < lines.len() ==> quoted_at(
            after,
            n + 2 * i,
            prefix,
            quoted_pieces(lines[i], quote.base_colors, code_colors, font_size),
            block_length,
            quote.alignment,
            quote.base_colors.background,
        )
    &&& after.last() == RenderOperation::SetColors(default_colors)
}

/// The lines of an alert: its title (the icon, a space, and the title given or else the
/// kind's), an empty line, then the quoted lines.
pub open spec fn alert_lines(
    style: AlertStyle,
    title: Option<Seq<char>>,
    lines: Seq<Seq<(Seq<char>, TextStyle)>>,
) -> Seq<Seq<(Seq<char>, TextStyle)>> {
    let name = match title {
        Some(t) => t,
        None => style.title@,
    };
    seq![seq![(style.icon@ + seq![' '] + name, style.style)], seq![(Seq::empty(), TextStyle::plain())]]
        + lines
}

/// Two texts joined by a space.
fn join_with_space(a: &str, b: &str) -> (s: String)
    ensures
        s@ == a@ + seq![' '] + b@,
{
    let mut s = String::new();
    let first = str_chars(a);
    let second = str_chars(b);
    let mut i: usize = 0;
    while i < first.len()
        invariant
            i <= first@.len(),
            first@ == a@,
            s@ == first@.take(i as int),
        decreases first@.len() - i,
    {
        string_push(&mut s, first[i]);
        i += 1;
        assert(s@ =~= first@.take(i as int));
    }
    string_push(&mut s, ' ');
    let mut j: usize = 0;
    while j < second.len()
        invariant
            j <= second@.len(),
            second@ == b@,
            s@ == a@ + seq![' '] + second@.take(j as int),
        decreases second@.len() - j,
    {
        string_push(&mut s, second[j]);
        j += 1;
        assert(s@ =~= a@ + seq![' '] + second@.take(j as int));
    }
    assert(second@.take(j as int) =~= second@);
    s
}

/// The pieces of some lines.
pub open spec fn lines_pieces(lines: Seq<WeightedLine>) -> Seq<Seq<(Seq<char>, TextStyle)>> {
    lines.map_values(|l: WeightedLine| line_contents(l))
}

impl PresentationBuilder {
    /// Quotes some lines: each one in a block behind the prefix, in the quote's colors; then
    /// the theme's default colors are set again.
    pub fn push_quoted_text(
        &mut self,
        lines: &Vec<WeightedLine>,
        quote: &QuoteStyle,
        code_colors: Colors,
        default_colors: Colors,
    )
        ensures
            final(self).view() == (BuilderView {
                operations: final(self).view().operations,
                ..old(self).view()
            }),
            quote_operations(
                old(self).view().operations,
                final(self).view().operations,
                lines_pieces(lines@),
                *quote,
                code_colors,
                default_colors,
                font_size_of(old(self).slide_state, old(self).settings.font_size_supported),
            ),
            final(self).settings == old(self).settings,
            final(self).prelude == old(self).prelude,
    {
        let ghost pieces = lines_pieces(lines@);
        let prefix_width = display_width(quote.prefix.as_str());
        let ghost widths = pieces.map_values(
            |l: Seq<(Seq<char>, TextStyle)>| cap_usize(
                cap_usize(text_columns(l)) as nat + str_display_width(quote.prefix@) as nat,
            ),
        );
        let mut widest: usize = 0;
        let mut k: usize = 0;
        assert(widths.take(0) =~= Seq::<usize>::empty());
        while k < lines.len()
            invariant
                k <= lines@.len(),
                pieces == lines_pieces(lines@),
                prefix_width == str_display_width(quote.prefix@),
                widths == pieces.map_values(
                    |l: Seq<(Seq<char>, TextStyle)>| cap_usize(
                        cap_usize(text_columns(l)) as nat + str_display_width(quote.prefix@) as nat,
                    ),
                ),
                widest == seq_max(widths.take(k as int)),
            decreases lines@.len() - k,
        {
            let w = line_text_width(&lines[k]);
            proof {
                assert(widths.take(k + 1).drop_last() =~= widths.take(k as int));
            }
            let total = w.saturating_add(prefix_width);
            assert(total == widths[k as int]);
            if total > widest {
                widest = total;
            }
            k += 1;
        }
        assert(widths.take(k as int) =~= widths);
        let block_length = #[verifier::truncate] (widest as u16);
        let font_size = self.slide_font_size();
        let prefix_style = quote.prefix_style.size(font_size);
        let ghost start = self.chunk_operations@;
        let ghost n = start.len() as int;
        let mut i: usize = 0;
        while i < lines.len()
            invariant
                i <= lines@.len(),
                pieces == lines_pieces(lines@),
                block_length == quote_block_length(pieces, quote.prefix@),
                font_size == font_size_of(self.slide_state, self.settings.font_size_supported),
                prefix_style == (TextStyle { size: font_size, ..quote.prefix_style }),
                n == start.len(),
                self.chunk_operations@.len() == n + 2 * i,
                self.chunk_operations@.take(n) == start,
                forall|j: int|
                    #![trigger pieces[j]]
                    0 <= j < i ==> quoted_at(
                        self.chunk_operations@,
                        n + 2 * j,
                        (quote.prefix@, prefix_style),
                        quoted_pieces(pieces[j], quote.base_colors, code_colors, font_size),
                        block_length,
                        quote.alignment,
                        quote.base_colors.background,
                    ),
                self.slide_state == old(self).slide_state,
                self.settings == old(self).settings,
                self.prelude == old(self).prelude,
                self.chunk_mutators@ == old(self).chunk_mutators@,
                self.slide_chunks@ == old(self).slide_chunks@,
                self.slides@ == old(self).slides@,
                self.slides_without_footer@ == old(self).slides_without_footer@,
            decreases lines@.len() - i,
        {
            let ghost pre = self.chunk_operations@;
            let line = &lines[i];
            let ghost shown = quoted_pieces(pieces[i as int], quote.base_colors, code_colors, font_size);
            let mut chunks: Vec<Text> = Vec::new();
            let mut c: usize = 0;
            while c < line.chunks.len()
                invariant
                    c <= line.chunks@.len(),
                    shown == quoted_pieces(line_contents(*line), quote.base_colors, code_colors, font_size),
                    texts_view(chunks@) == shown.take(c as int),
                decreases line.chunks@.len() - c,
            {
                let chunk = &line.chunks[c];
                let mut style = chunk.style;
                if style.colors.background.is_none() && style.colors.foreground.is_none() {
                    style.colors = quote.base_colors;
                    if style.is_code() {
                        style.colors = code_colors;
                    }
                }
                style = style.size(font_size);
                let ghost before = chunks@;
                chunks.push(Text { content: chunk.content.clone(), style });
                assert(texts_view(chunks@) =~= texts_view(before).push(shown[c as int]));
                c += 1;
                assert(texts_view(chunks@) =~= shown.take(c as int));
            }
            assert(shown.take(c as int) =~= shown);
            let prefix = Text { content: quote.prefix.clone(), style: prefix_style };
            self.chunk_operations.push(
                RenderOperation::RenderBlockLine(
                    BlockLine {
                        prefix,
                        right_padding_length: 0,
                        repeat_prefix_on_wrap: true,
                        text: WeightedLine { chunks },
                        block_length,
                        alignment: quote.alignment,
                        block_color: quote.base_colors.background,
                    },
                ),
            );
            let ghost mid = self.chunk_operations@;
            self.chunk_operations.push(RenderOperation::RenderLineBreak);
            proof {
                let ops = self.chunk_operations@;
                assert(ops.len() == n + 2 * i + 2);
                assert(ops.take(n) =~= start);
                assert(quoted_line(
                    ops[n + 2 * i],
                    (quote.prefix@, prefix_style),
                    shown,
                    block_length,
                    quote.alignment,
                    quote.base_colors.background,
                ));
                assert forall|j: int|
                    #![trigger pieces[j]]
                    0 <= j < i + 1 implies quoted_at(
                        ops,
                        n + 2 * j,
                        (quote.prefix@, prefix_style),
                        quoted_pieces(pieces[j], quote.base_colors, code_colors, font_size),
                        block_length,
                        quote.alignment,
                        quote.base_colors.background,
                    ) by {
                    if j < i {
                        assert(ops[n + 2 * j] == pre[n + 2 * j]);
                        assert(ops[n + 2 * j + 1] == pre[n + 2 * j + 1]);
                        assert(quoted_line(
                            pre[n + 2 * j],
                            (quote.prefix@, prefix_style),
                            quoted_pieces(pieces[j], quote.base_colors, code_colors, font_size),
                            block_length,
                            quote.alignment,
                            quote.base_colors.background,
                        ));
                    } else {
                        assert(j == i);
                        assert(ops[n + 2 * j + 1] is RenderLineBreak);
                    }
                }
            }
            i += 1;
        }
        let ghost last = self.chunk_operations@;
        self.chunk_operations.push(RenderOperation::SetColors(default_colors));
        proof {
            let ops = self.chunk_operations@;
            assert(ops.take(n) =~= start);
            assert forall|j: int|
                #![trigger pieces[j]]
                0 <= j < pieces.len() implies quoted_at(
                    ops,
                    n + 2 * j,
                    (quote.prefix@, prefix_style),
                    quoted_pieces(pieces[j], quote.base_colors, code_colors, font_size),
                    block_length,
                    quote.alignment,
                    quote.base_colors.background,
                ) by {
                assert(ops[n + 2 * j] == last[n + 2 * j]);
                assert(ops[n + 2 * j + 1] == last[n + 2 * j + 1]);
            }
        }
    }

    /// A block quote, drawn as the theme draws quotes.
    pub fn push_block_quote(
        &mut self,
        lines: &Vec<WeightedLine>,
        quote: &QuoteStyle,
        code_colors: Colors,
        default_colors: Colors,
    )
        ensures
            final(self).view() == (BuilderView {
                operations: final(self).view().operations,
                ..old(self).view()
            }),
            quote_operations(
                old(self).view().operations,
                final(self).view().operations,
                lines_pieces(lines@),
                *quote,
                code_colors,
                default_colors,
                font_size_of(old(self).slide_state, old(self).settings.font_size_supported),
            ),
            final(self).settings == old(self).settings,
            final(self).prelude == old(self).prelude,
    {
        self.push_quoted_text(lines, quote, code_colors, default_colors);
    }

    /// An alert: a title line with the kind's icon and the title given, or else the kind's, an
    /// empty line, then the lines, quoted as the theme draws alerts, the prefix in the kind's
    /// style.
    pub fn push_alert(
        &mut self,
        kind: AlertType,
        title: Option<String>,
        lines: &Vec<WeightedLine>,
        theme: &AlertTheme,
        code_colors: Colors,
        default_colors: Colors,
    )
        ensures
            final(self).view() == (BuilderView {
                operations: final(self).view().operations,
                ..old(self).view()
            }),
            quote_operations(
                old(self).view().operations,
                final(self).view().operations,
                alert_lines(
                    alert_style(*theme, kind),
                    match title {
                        Some(t) => Some(t@),
                        None => None,
                    },
                    lines_pieces(lines@),
                ),
                QuoteStyle {
                    prefix: theme.prefix,
                    prefix_style: alert_style(*theme, kind).style,
                    base_colors: theme.base_colors,
                    alignment: theme.alignment,
                },
                code_colors,
                default_colors,
                font_size_of(old(self).slide_state, old(self).settings.font_size_supported),
            ),
            final(self).settings == old(self).settings,
            final(self).prelude == old(self).prelude,
    {
        let style = match kind {
            AlertType::Note => &theme.note,
            AlertType::Tip => &theme.tip,
            AlertType::Important => &theme.important,
            AlertType::Warning => &theme.warning,
            AlertType::Caution => &theme.caution,
        };
        let heading = match &title {
            Some(t) => join_with_space(style.icon.as_str(), t.as_str()),
            None => join_with_space(style.icon.as_str(), style.title.as_str()),
        };
        let ghost heading_view = heading@;
        let mut all: Vec<WeightedLine> = Vec::new();
        all.push(WeightedLine::from_text(Text { content: heading, style: style.style }));
        all.push(WeightedLine::from_str(""));
        assert(line_contents(all@[0]) =~= seq![(heading_view, style.style)]);
        let mut k: usize = 0;
        while k < lines.len()
            invariant
                k <= lines@.len(),
                all@.len() == k + 2,
                lines_pieces(all@).skip(2) == lines_pieces(lines@).take(k as int),
                line_contents(all@[0]) == seq![(heading_view, style.style)],
                all@[1].chunks@.len() == 1,
                all@[1].chunks@[0].content@ == ""@,
                all@[1].chunks@[0].style == TextStyle::plain(),
            decreases lines@.len() - k,
        {
            let ghost before = all@;
            all.push(WeightedLine { chunks: crate::separator::copy_texts(&lines[k].chunks) });
            k += 1;
            assert(lines_pieces(all@).skip(2) =~= lines_pieces(lines@).take(k as int));
            assert(all@[0] == before[0] && all@[1] == before[1]);
        }
        proof {
            reveal_strlit("");
            let name = match title {
                Some(t) => t@,
                None => style.title@,
            };
            assert(heading_view == style.icon@ + seq![' '] + name);
            assert(lines_pieces(lines@).take(k as int) =~= lines_pieces(lines@));
            let all_pieces = lines_pieces(all@);
            assert(""@ =~= Seq::<char>::empty());
            assert(all_pieces[1].len() == 1);
            assert(all_pieces[1][0] == (all@[1].chunks@[0].content@, all@[1].chunks@[0].style));
            assert(all_pieces[1] =~= seq![(Seq::<char>::empty(), TextStyle::plain())]);
            assert(all_pieces =~= seq![all_pieces[0], all_pieces[1]] + all_pieces.skip(2));
            assert(lines_pieces(all@) =~= alert_lines(
                alert_style(*theme, kind),
                match title {
                    Some(t) => Some(t@),
                    None => None,
                },
                lines_pieces(lines@),
            ));
        }
        let quote = QuoteStyle {
            prefix: theme.prefix.clone(),
            prefix_style: style.style,
            base_colors: theme.base_colors,
            alignment: theme.alignment,
        };
        self.push_quoted_text(&all, &quote, code_colors, default_colors);
    }
}

} // verus!
