//! Tables: every column as wide as its widest cell, each cell padded as its column is
//! aligned, and a ruled line under the header.
use crate::builder::{
    is_trace, lemma_no_steps, lemma_trace_push, steps_done, BuildStep, BuilderSettings,
    ElementStyle, PresentationBuilder,
};
use crate::diff::line_contents;
use crate::separator::{copy_texts, texts_view};
use crate::style::TextStyle;
use crate::quote::{line_text_width, text_columns};
use crate::text::{cap_usize, str_display_width, Text, WeightedLine};
use crate::text_util::{repeat_char, string_push};
use vstd::prelude::*;

verus! {

/// How the cells of a column are aligned.
#[derive(Clone, Copy, Debug, PartialEq, Eq, Structural)]
pub enum TableColumnAlignment {
    Left,
    Center,
    Right,
}

/// A column of a table: its header and how its cells are aligned.
#[derive(Clone, Debug)]
pub struct TableColumn {
    pub text: WeightedLine,
    pub alignment: TableColumnAlignment,
}

/// A row of a table: one text per column.
#[derive(Clone, Debug)]
pub struct TableRow {
    pub cells: Vec<WeightedLine>,
}

/// A table: its columns and its rows.
#[derive(Clone, Debug)]
pub struct Table {
    pub columns: Vec<TableColumn>,
    pub rows: Vec<TableRow>,
}

/// The number of columns the text of a line takes, whatever its font size, capped at
/// `usize::MAX`.
pub open spec fn line_width(l: WeightedLine) -> usize {
    cap_usize(text_columns(line_contents(l)))
}

/// The largest of some numbers, 0 for none.
pub open spec fn seq_max(s: Seq<usize>) -> usize
    decreases s.len(),
{
    if s.len() == 0 {
        0
    } else if s.last() > seq_max(s.drop_last()) {
        s.last()
    } else {
        seq_max(s.drop_last())
    }
}

/// A piece of plain text.
pub open spec fn plain_piece(s: Seq<char>) -> (Seq<char>, TextStyle) {
    (s, TextStyle::plain())
}

/// `n` spaces.
pub open spec fn spaces(n: nat) -> Seq<char> {
    Seq::new(n, |_i: int| ' ')
}

impl Table {
    /// Every row has a cell for every column.
    pub open spec fn wf(&self) -> bool {
        forall|r: int|
            0 <= r < self.rows@.len() ==> (#[trigger] self.rows@[r]).cells@.len()
                >= self.columns@.len()
    }

    /// The widths of the cells of a column, the header's first.
    pub open spec fn cell_widths(&self, column: int) -> Seq<usize> {
        seq![line_width(self.columns@[column].text)] + self.rows@.map_values(
            |r: TableRow| line_width(r.cells@[column]),
        )
    }

    /// The width of every column: that of its widest cell.
    pub open spec fn widths(&self) -> Seq<usize> {
        Seq::new(self.columns@.len(), |c: int| seq_max(self.cell_widths(c)))
    }

    /// The number of columns.
    pub fn column_count(&self) -> (n: usize)
        ensures
            n == self.columns@.len(),
    {
        self.columns.len()
    }

    /// The width of a column.
    fn column_width(&self, column: usize) -> (w: usize)
        requires
            self.wf(),
            column < self.columns@.len(),
        ensures
            w == seq_max(self.cell_widths(column as int)),
    {
        let ghost cells = self.cell_widths(column as int);
        let mut widest = line_text_width(&self.columns[column].text);
        let mut r: usize = 0;
        assert(cells.take(1).drop_last() =~= Seq::<usize>::empty());
        assert(cells.len() == self.rows@.len() + 1);
        assert(cells[0] == widest);
        assert(cells.take(1).last() == cells[0]);
        assert(seq_max(cells.take(1).drop_last()) == 0);
        assert(seq_max(cells.take(1)) == widest);
        while r < self.rows.len()
            invariant
                self.wf(),
                column < self.columns@.len(),
                r <= self.rows@.len(),
                cells == self.cell_widths(column as int),
                cells.len() == self.rows@.len() + 1,
                widest == seq_max(cells.take(r + 1)),
            decreases self.rows@.len() - r,
        {
            let w = line_text_width(&self.rows[r].cells[column]);
            assert(cells.take(r + 2).drop_last() =~= cells.take(r + 1));
            assert(cells[r + 1] == w);
            if w > widest {
                widest = w;
            }
            r += 1;
        }
        assert(cells.take(r + 1) =~= cells);
        widest
    }

    /// Whether a table can be drawn: every row has a cell for every column, and every column
    /// leaves room for its rule.
    pub fn is_drawable(&self) -> (b: bool)
        ensures
            b == (self.wf() && forall|k: int|
                0 <= k < self.widths().len() ==> #[trigger] self.widths()[k] <= usize::MAX - 2),
    {
        let mut r: usize = 0;
        while r < self.rows.len()
            invariant
                r <= self.rows@.len(),
                forall|j: int| 0 <= j < r ==> (#[trigger] self.rows@[j]).cells@.len() >= self.columns@.len(),
            decreases self.rows@.len() - r,
        {
            if self.rows[r].cells.len() < self.columns.len() {
                return false;
            }
            r += 1;
        }
        let widths = self.column_widths();
        let mut c: usize = 0;
        while c < widths.len()
            invariant
                c <= widths@.len(),
                widths@ == self.widths(),
                forall|k: int| 0 <= k < c ==> #[trigger] widths@[k] <= usize::MAX - 2,
            decreases widths@.len() - c,
        {
            if widths[c] > usize::MAX - 2 {
                return false;
            }
            c += 1;
        }
        true
    }

    /// The width of every column: that of its widest cell, the header's included.
    pub fn column_widths(&self) -> (widths: Vec<usize>)
        requires
            self.wf(),
        ensures
            widths@ == self.widths(),
    {
        let mut widths: Vec<usize> = Vec::new();
        let mut c: usize = 0;
        while c < self.columns.len()
            invariant
                self.wf(),
                c <= self.columns@.len(),
                widths@ == self.widths().take(c as int),
            decreases self.columns@.len() - c,
        {
            let w = self.column_width(c);
            widths.push(w);
            c += 1;
            assert(widths@ =~= self.widths().take(c as int));
        }
        assert(self.widths().take(c as int) =~= self.widths());
        widths
    }
}

/// The pieces of a cell: its text, padded to the column's width as the column is aligned (an
/// odd space of a centered cell goes before it); a text as wide as the column, or wider, as it
/// is.
pub open spec fn cell_pieces(
    text: Seq<Text>,
    alignment: TableColumnAlignment,
    width: usize,
) -> Seq<(Seq<char>, TextStyle)> {
    let text_width = cap_usize(text_columns(texts_view(text)));
    let padding: nat = if width > text_width {
        (width - text_width) as nat
    } else {
        0
    };
    if padding == 0 {
        texts_view(text)
    } else {
        match alignment {
            TableColumnAlignment::Left => texts_view(text) + seq![plain_piece(spaces(padding))],
            TableColumnAlignment::Center => seq![plain_piece(spaces(padding / 2 + padding % 2))]
                + texts_view(text) + seq![plain_piece(spaces(padding / 2))],
            TableColumnAlignment::Right => seq![plain_piece(spaces(padding))] + texts_view(text),
        }
    }
}

/// The pieces of some lines.
pub open spec fn lines_chunks(lines: Seq<WeightedLine>) -> Seq<Seq<Text>> {
    lines.map_values(|l: WeightedLine| l.chunks@)
}

/// The pieces of the first `n` cells of a row, with " │ " between cells.
pub open spec fn row_pieces(
    texts: Seq<Seq<Text>>,
    alignments: Seq<TableColumnAlignment>,
    widths: Seq<usize>,
    n: nat,
) -> Seq<(Seq<char>, TextStyle)>
    decreases n,
{
    if n == 0 {
        Seq::empty()
    } else {
        let k = (n - 1) as int;
        let separator = if k > 0 {
            seq![plain_piece(" │ "@)]
        } else {
            Seq::empty()
        };
        row_pieces(texts, alignments, widths, (n - 1) as nat) + separator + cell_pieces(
            texts[k],
            alignments[k],
            widths[k],
        )
    }
}

/// The smaller of two numbers.
pub open spec fn min_nat(a: nat, b: nat) -> nat {
    if a < b {
        a
    } else {
        b
    }
}

/// A row's line: as many cells as there are both texts and alignments, each padded to its
/// column's width.
pub fn prepare_table_row(
    texts: &Vec<WeightedLine>,
    alignments: &Vec<TableColumnAlignment>,
    widths: &Vec<usize>,
) -> (line: WeightedLine)
    requires
        widths@.len() >= min_nat(texts@.len(), alignments@.len()),
    ensures
        line_contents(line) == row_pieces(
            lines_chunks(texts@),
            alignments@,
            widths@,
            min_nat(texts@.len(), alignments@.len()),
        ),
{
    let n = if texts.len() < alignments.len() {
        texts.len()
    } else {
        alignments.len()
    };
    let mut chunks: Vec<Text> = Vec::new();
    let mut column: usize = 0;
    while column < n
        invariant
            n == min_nat(texts@.len(), alignments@.len()),
            widths@.len() >= n,
            column <= n,
            texts_view(chunks@) == row_pieces(
                lines_chunks(texts@),
                alignments@,
                widths@,
                column as nat,
            ),
        decreases n - column,
    {
        let ghost before = chunks@;
        if column > 0 {
            chunks.push(Text::plain(" │ "));
        }
        let ghost with_separator = chunks@;
        let text = &texts[column];
        let text_length = line_text_width(text);
        let cell_width = widths[column];
        let padding = cell_width.saturating_sub(text_length);
        let mut body = copy_texts(&text.chunks);
        if padding == 0 {
            chunks.append(&mut body);
        } else {
            match alignments[column] {
                TableColumnAlignment::Left => {
                    chunks.append(&mut body);
                    chunks.push(Text { content: repeat_char(' ', padding), style: TextStyle::default() });
                },
                TableColumnAlignment::Center => {
                    let padding_after = padding / 2;
                    let padding_before = padding_after + (padding % 2);
                    chunks.push(
                        Text { content: repeat_char(' ', padding_before), style: TextStyle::default() },
                    );
                    chunks.append(&mut body);
                    chunks.push(
                        Text { content: repeat_char(' ', padding_after), style: TextStyle::default() },
                    );
                },
                TableColumnAlignment::Right => {
                    chunks.push(Text { content: repeat_char(' ', padding), style: TextStyle::default() });
                    chunks.append(&mut body);
                },
            }
        }
        proof {
            let separator = if column > 0 {
                seq![plain_piece(" │ "@)]
            } else {
                Seq::<(Seq<char>, TextStyle)>::empty()
            };
            assert(texts_view(with_separator) =~= texts_view(before) + separator);
            let cell = chunks@.subrange(with_separator.len() as int, chunks@.len() as int);
            assert(chunks@ =~= with_separator + cell);
            assert(texts_view(cell) =~= cell_pieces(
                texts@[column as int].chunks@,
                alignments@[column as int],
                widths@[column as int],
            ));
            assert(texts_view(chunks@) =~= texts_view(with_separator) + texts_view(cell));
        }
        column += 1;
    }
    WeightedLine { chunks }
}

/// The rule of a column under a table's header: a cross for every column but the first, then
/// dashes as many as the column is wide and one more, and a second one more for a column that
/// has columns on both sides.
pub open spec fn rule_piece(widths: Seq<usize>, k: int) -> Seq<char> {
    let margin: nat = if k > 0 && k < widths.len() - 1 {
        2
    } else {
        1
    };
    let cross = if k > 0 {
        seq!['┼']
    } else {
        Seq::empty()
    };
    cross + Seq::new((widths[k] + margin) as nat, |_i: int| '─')
}

/// The pieces of the rule under a table's header, one per column.
pub open spec fn rule_pieces(widths: Seq<usize>) -> Seq<(Seq<char>, TextStyle)> {
    Seq::new(widths.len(), |k: int| plain_piece(rule_piece(widths, k)))
}

/// The rule under a table's header, for columns of the given widths.
pub fn table_rule(widths: &Vec<usize>) -> (line: WeightedLine)
    requires
        forall|k: int| 0 <= k < widths@.len() ==> #[trigger] widths@[k] <= usize::MAX - 2,
    ensures
        line_contents(line) == rule_pieces(widths@),
{
    let mut chunks: Vec<Text> = Vec::new();
    let mut index: usize = 0;
    while index < widths.len()
        invariant
            index <= widths@.len(),
            forall|k: int| 0 <= k < widths@.len() ==> #[trigger] widths@[k] <= usize::MAX - 2,
            texts_view(chunks@) == rule_pieces(widths@).take(index as int),
        decreases widths@.len() - index,
    {
        let mut contents = String::new();
        let mut margin: usize = 1;
        if index > 0 {
            string_push(&mut contents, '┼');
            if index < widths.len() - 1 {
                margin += 1;
            }
        }
        let ghost cross = contents@;
        let count = widths[index] + margin;
        let mut j: usize = 0;
        while j < count
            invariant
                j <= count,
                contents@ == cross + Seq::new(j as nat, |_i: int| '─'),
            decreases count - j,
        {
            string_push(&mut contents, '─');
            j += 1;
            assert(contents@ =~= cross + Seq::new(j as nat, |_i: int| '─'));
        }
        proof {
            assert(contents@ =~= rule_piece(widths@, index as int));
        }
        let ghost before = chunks@;
        let ghost piece = (contents@, TextStyle::plain());
        chunks.push(Text { content: contents, style: TextStyle::default() });
        assert(texts_view(chunks@) =~= texts_view(before).push(piece));
        assert(piece == rule_pieces(widths@)[index as int]);
        index += 1;
        assert(texts_view(chunks@) =~= rule_pieces(widths@).take(index as int));
    }
    assert(rule_pieces(widths@).take(index as int) =~= rule_pieces(widths@));
    WeightedLine { chunks }
}

/// The alignments of a table's columns.
pub open spec fn column_alignments(t: Table) -> Seq<TableColumnAlignment> {
    t.columns@.map_values(|c: TableColumn| c.alignment)
}

/// The headers of a table's columns.
pub open spec fn header_chunks(t: Table) -> Seq<Seq<Text>> {
    t.columns@.map_values(|c: TableColumn| c.text.chunks@)
}

/// The pieces of a table's header: every header centered in its column.
pub open spec fn header_pieces(t: Table) -> Seq<(Seq<char>, TextStyle)> {
    let n = t.columns@.len();
    row_pieces(
        header_chunks(t),
        Seq::new(n, |_i: int| TableColumnAlignment::Center),
        t.widths(),
        n,
    )
}

/// The pieces of a table's row: every cell aligned as its column.
pub open spec fn table_row_pieces(t: Table, r: int) -> Seq<(Seq<char>, TextStyle)> {
    let cells = t.rows@[r].cells@;
    row_pieces(
        lines_chunks(cells),
        column_alignments(t),
        t.widths(),
        min_nat(cells.len(), t.columns@.len()),
    )
}

/// The steps of a table's first `k` rows: each row's line, after a pause when the rows show
/// one after the other.
pub open spec fn rows_steps(t: Table, style: ElementStyle, incremental: bool, k: nat) -> Seq<
    BuildStep,
>
    decreases k,
{
    if k == 0 {
        Seq::empty()
    } else {
        let pause = if incremental {
            seq![BuildStep::Pause]
        } else {
            Seq::empty()
        };
        rows_steps(t, style, incremental, (k - 1) as nat) + pause + seq![
            BuildStep::TextLine { pieces: table_row_pieces(t, k - 1), style },
        ]
    }
}

/// The steps of a table: a pause first when an incremental table starts with one; the
/// header's line and the rule under it; the rows; and a pause last when an incremental table
/// ends with one.
pub open spec fn table_steps(t: Table, style: ElementStyle, settings: BuilderSettings) -> Seq<
    BuildStep,
> {
    let incremental = settings.incremental_tables;
    let before = if incremental && settings.pause_before_incremental_tables {
        seq![BuildStep::Pause]
    } else {
        Seq::empty()
    };
    let after = if incremental && settings.pause_after_incremental_tables {
        seq![BuildStep::Pause]
    } else {
        Seq::empty()
    };
    before + seq![
        BuildStep::TextLine { pieces: header_pieces(t), style },
        BuildStep::TextLine { pieces: rule_pieces(t.widths()), style },
    ] + rows_steps(t, style, incremental, t.rows@.len()) + after
}

impl PresentationBuilder {
    /// Draws a table, as the theme draws tables: its header, a rule, and its rows, with pauses
    /// between rows for an incremental table.
    pub fn push_table(&mut self, table: &Table, style: ElementStyle)
        requires
            table.wf(),
            forall|k: int|
                0 <= k < table.widths().len() ==> #[trigger] table.widths()[k] <= usize::MAX - 2,
        ensures
            steps_done(
                old(self).view(),
                old(self).prelude,
                old(self).settings,
                table_steps(*table, style, old(self).settings),
                final(self).view(),
            ),
            final(self).settings == old(self).settings,
            final(self).prelude == old(self).prelude,
    {
        let ghost start = self.view();
        let ghost mut steps: Seq<BuildStep> = Seq::empty();
        let ghost mut views: Seq<crate::builder::BuilderView> = seq![start];
        proof {
            lemma_no_steps(start, self.prelude, self.settings);
        }
        let widths = table.column_widths();
        let n = table.columns.len();
        let mut header: Vec<WeightedLine> = Vec::new();
        let mut centered: Vec<TableColumnAlignment> = Vec::new();
        let mut alignments: Vec<TableColumnAlignment> = Vec::new();
        let mut c: usize = 0;
        while c < n
            invariant
                n == table.columns@.len(),
                c <= n,
                lines_chunks(header@) == header_chunks(*table).take(c as int),
                centered@ == Seq::new(c as nat, |_i: int| TableColumnAlignment::Center),
                alignments@ == column_alignments(*table).take(c as int),
            decreases n - c,
        {
            let ghost before = header@;
            let copy = WeightedLine { chunks: copy_texts(&table.columns[c].text.chunks) };
            assert(copy.chunks@ == header_chunks(*table)[c as int]);
            header.push(copy);
            assert(lines_chunks(header@) =~= lines_chunks(before).push(copy.chunks@));
            centered.push(TableColumnAlignment::Center);
            alignments.push(table.columns[c].alignment);
            c += 1;
            assert(lines_chunks(header@) =~= header_chunks(*table).take(c as int));
            assert(centered@ =~= Seq::new(c as nat, |_i: int| TableColumnAlignment::Center));
            assert(alignments@ =~= column_alignments(*table).take(c as int));
        }
        assert(header_chunks(*table).take(n as int) =~= header_chunks(*table));
        assert(column_alignments(*table).take(n as int) =~= column_alignments(*table));
        let header_line = prepare_table_row(&header, &centered, &widths);
        let rule = table_rule(&widths);
        let incremental = self.settings.incremental_tables;
        if incremental && self.settings.pause_before_incremental_tables {
            self.push_pause_step();
            proof {
                lemma_trace_push(self.prelude, self.settings, steps, views, BuildStep::Pause, self.view());
                steps = steps.push(BuildStep::Pause);
                views = views.push(self.view());
            }
        }
        let ghost header_step = BuildStep::TextLine { pieces: header_pieces(*table), style };
        self.push_text_line(&header_line, style);
        proof {
            lemma_trace_push(self.prelude, self.settings, steps, views, header_step, self.view());
            steps = steps.push(header_step);
            views = views.push(self.view());
        }
        let ghost rule_step = BuildStep::TextLine { pieces: rule_pieces(table.widths()), style };
        self.push_text_line(&rule, style);
        proof {
            lemma_trace_push(self.prelude, self.settings, steps, views, rule_step, self.view());
            steps = steps.push(rule_step);
            views = views.push(self.view());
        }
        let ghost prefix = steps;
        assert(steps + rows_steps(*table, style, incremental, 0) =~= prefix);
        let mut r: usize = 0;
        while r < table.rows.len()
            invariant
                table.wf(),
                r <= table.rows@.len(),
                widths@ == table.widths(),
                widths@.len() == table.columns@.len(),
                alignments@ == column_alignments(*table),
                incremental == self.settings.incremental_tables,
                self.settings == old(self).settings,
                self.prelude == old(self).prelude,
                is_trace(self.prelude, self.settings, steps, views),
                views[0] == start,
                views.last() == self.view(),
                steps == prefix + rows_steps(*table, style, incremental, r as nat),
            decreases table.rows@.len() - r,
        {
            let ghost before_row = steps;
            if incremental {
                self.push_pause_step();
                proof {
                    lemma_trace_push(self.prelude, self.settings, steps, views, BuildStep::Pause, self.view());
                    steps = steps.push(BuildStep::Pause);
                    views = views.push(self.view());
                }
            }
            let row_line = prepare_table_row(&table.rows[r].cells, &alignments, &widths);
            let ghost row_step = BuildStep::TextLine { pieces: table_row_pieces(*table, r as int), style };
            self.push_text_line(&row_line, style);
            proof {
                lemma_trace_push(self.prelude, self.settings, steps, views, row_step, self.view());
                steps = steps.push(row_step);
                views = views.push(self.view());
            }
            r += 1;
            assert(steps =~= prefix + rows_steps(*table, style, incremental, r as nat));
        }
        if incremental && self.settings.pause_after_incremental_tables {
            self.push_pause_step();
            proof {
                lemma_trace_push(self.prelude, self.settings, steps, views, BuildStep::Pause, self.view());
                steps = steps.push(BuildStep::Pause);
                views = views.push(self.view());
            }
        }
        assert(steps =~= table_steps(*table, style, old(self).settings));
        assert(is_trace(self.prelude, self.settings, steps, views));
    }
}

/// The sum of some numbers.
pub open spec fn sum_widths(s: Seq<usize>) -> nat
    decreases s.len(),
{
    if s.len() == 0 {
        0
    } else {
        sum_widths(s.drop_last()) + s.last() as nat
    }
}

/// The columns of pieces one after the other are the sum of their columns.
pub proof fn lemma_text_columns_append(a: Seq<(Seq<char>, TextStyle)>, b: Seq<(Seq<char>, TextStyle)>)
    ensures
        text_columns(a + b) == text_columns(a) + text_columns(b),
    decreases b.len(),
{
    if b.len() > 0 {
        lemma_text_columns_append(a, b.drop_last());
        assert((a + b).drop_last() =~= a + b.drop_last());
    }
}

/// No number is larger than the largest.
pub proof fn lemma_seq_max_bound(s: Seq<usize>, i: int)
    requires
        0 <= i < s.len(),
    ensures
        s[i] <= seq_max(s),
    decreases s.len(),
{
    if i < s.len() - 1 {
        lemma_seq_max_bound(s.drop_last(), i);
    }
}

/// A cell whose text fits in its column is as wide as the column, when spaces take one column
/// each.
proof fn lemma_cell_columns(text: Seq<Text>, alignment: TableColumnAlignment, width: usize)
    requires
        text_columns(texts_view(text)) <= width,
        forall|k: nat| #[trigger] str_display_width(spaces(k)) == k,
    ensures
        text_columns(cell_pieces(text, alignment, width)) == width,
{
    let t = texts_view(text);
    let padding = (width - text_columns(t)) as nat;
    assert(cap_usize(text_columns(t)) == text_columns(t));
    if padding > 0 {
        let p = seq![plain_piece(spaces(padding))];
        let before = seq![plain_piece(spaces(padding / 2 + padding % 2))];
        let after = seq![plain_piece(spaces(padding / 2))];
        lemma_single_piece_columns(spaces(padding));
        lemma_single_piece_columns(spaces(padding / 2 + padding % 2));
        lemma_single_piece_columns(spaces(padding / 2));
        assert(str_display_width(spaces(padding)) == padding);
        assert(str_display_width(spaces(padding / 2)) == padding / 2);
        assert(str_display_width(spaces(padding / 2 + padding % 2)) == padding / 2 + padding % 2);
        match alignment {
            TableColumnAlignment::Left => {
                lemma_text_columns_append(t, p);
            },
            TableColumnAlignment::Center => {
                lemma_text_columns_append(before, t);
                lemma_text_columns_append(before + t, after);
            },
            TableColumnAlignment::Right => {
                lemma_text_columns_append(p, t);
            },
        }
    }
}

/// A single piece takes the columns of its text.
proof fn lemma_single_piece_columns(text: Seq<char>)
    ensures
        text_columns(seq![plain_piece(text)]) == str_display_width(text),
{
    let p = seq![plain_piece(text)];
    assert(p.drop_last() =~= Seq::<(Seq<char>, TextStyle)>::empty());
    assert(text_columns(p.drop_last()) == 0);
}

/// The first `n` cells of a row, each fitting in its column, take as many columns as the
/// columns and the separators between them, when spaces take one column each.
proof fn lemma_row_columns(
    texts: Seq<Seq<Text>>,
    alignments: Seq<TableColumnAlignment>,
    widths: Seq<usize>,
    n: nat,
)
    requires
        n <= texts.len(),
        n <= alignments.len(),
        n <= widths.len(),
        forall|k: int| 0 <= k < n ==> text_columns(texts_view(#[trigger] texts[k])) <= widths[k],
        forall|k: nat| #[trigger] str_display_width(spaces(k)) == k,
    ensures
        text_columns(row_pieces(texts, alignments, widths, n)) == sum_widths(widths.take(n as int))
            + (if n > 0 {
            n - 1
        } else {
            0
        }) * str_display_width(" │ "@),
    decreases n,
{
    if n > 0 {
        let k = (n - 1) as int;
        lemma_row_columns(texts, alignments, widths, (n - 1) as nat);
        let separator = if k > 0 {
            seq![plain_piece(" │ "@)]
        } else {
            Seq::empty()
        };
        let cell = cell_pieces(texts[k], alignments[k], widths[k]);
        lemma_cell_columns(texts[k], alignments[k], widths[k]);
        let head = row_pieces(texts, alignments, widths, (n - 1) as nat);
        lemma_text_columns_append(head, separator);
        lemma_text_columns_append(head + separator, cell);
        let w = str_display_width(" │ "@) as int;
        if k > 0 {
            lemma_single_piece_columns(" │ "@);
            assert((k - 1) * w + w == k * w) by (nonlinear_arith);
        } else {
            assert(text_columns(separator) == 0);
        }
        assert(widths.take(n as int).drop_last() =~= widths.take(k));
    }
}

/// The cells of a column fit in it, unless one is wider than `usize::MAX` columns.
proof fn lemma_cells_fit(t: Table, column: int, row: int)
    requires
        t.wf(),
        0 <= column < t.columns@.len(),
        -1 <= row < t.rows@.len(),
        row >= 0 ==> text_columns(line_contents(t.rows@[row].cells@[column])) <= usize::MAX,
        row < 0 ==> text_columns(line_contents(t.columns@[column].text)) <= usize::MAX,
    ensures
        row >= 0 ==> text_columns(line_contents(t.rows@[row].cells@[column])) <= t.widths()[column],
        row < 0 ==> text_columns(line_contents(t.columns@[column].text)) <= t.widths()[column],
{
    let cells = t.cell_widths(column);
    lemma_seq_max_bound(cells, row + 1);
    if row >= 0 {
        assert(cells[row + 1] == line_width(t.rows@[row].cells@[column]));
    }
}

/// A table's rows line up with its header: when spaces take one column each and no cell is
/// wider than `usize::MAX` columns, the header and every row take the sum of the column widths
/// and a separator between every two columns.
pub proof fn lemma_table_rows_line_up(t: Table, r: int)
    requires
        t.wf(),
        0 <= r < t.rows@.len(),
        forall|k: nat| #[trigger] str_display_width(spaces(k)) == k,
        forall|c: int|
            0 <= c < t.columns@.len() ==> text_columns(line_contents(#[trigger] t.columns@[c].text))
                <= usize::MAX,
        forall|row: int, c: int|
            0 <= row < t.rows@.len() && 0 <= c < t.columns@.len() ==> text_columns(
                line_contents(#[trigger] t.rows@[row].cells@[c]),
            ) <= usize::MAX,
    ensures
        text_columns(table_row_pieces(t, r)) == text_columns(header_pieces(t)),
        t.columns@.len() > 0 ==> text_columns(header_pieces(t)) == sum_widths(t.widths()) + (
        t.columns@.len() - 1) * str_display_width(" │ "@),
{
    let n = t.columns@.len();
    let widths = t.widths();
    let cells = t.rows@[r].cells@;
    assert(min_nat(cells.len(), n) == n);
    assert forall|k: int| 0 <= k < n implies text_columns(
        texts_view(#[trigger] lines_chunks(cells)[k]),
    ) <= widths[k] by {
        assert(text_columns(line_contents(t.rows@[r].cells@[k])) <= usize::MAX);
        lemma_cells_fit(t, k, r);
    }
    assert forall|k: int| 0 <= k < n implies text_columns(
        texts_view(#[trigger] header_chunks(t)[k]),
    ) <= widths[k] by {
        assert(text_columns(line_contents(t.columns@[k].text)) <= usize::MAX);
        lemma_cells_fit(t, k, -1);
    }
    lemma_row_columns(lines_chunks(cells), column_alignments(t), widths, n);
    lemma_row_columns(
        header_chunks(t),
        Seq::new(n, |_i: int| TableColumnAlignment::Center),
        widths,
        n,
    );
    assert(widths.take(n as int) =~= widths);
}

} // verus!
