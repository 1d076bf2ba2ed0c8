//! Word wrapping: splitting a line of styled text into lines that fit in a number of columns.
use crate::style::TextStyle;
use crate::text::{display_width, str_display_width, cap_usize, Text, WeightedLine};
use crate::text_util::{string_from_chars, string_push};
use vstd::prelude::*;

verus! {

/// A character of a line, with the columns it takes and the piece of text it comes from.
#[derive(Clone, Copy, Debug, PartialEq, Eq, Structural)]
pub struct Cell {
    pub character: char,
    pub width: usize,
    pub chunk: usize,
}

/// The columns a character takes in a given font size, capped at `usize::MAX`.
pub open spec fn char_columns(c: char, size: u8) -> usize {
    cap_usize(str_display_width(seq![c]) as nat * size as nat)
}

/// The cells of one piece of text, the `index`-th of its line.
pub open spec fn text_cells(t: Text, index: usize) -> Seq<Cell> {
    Seq::new(t.content@.len(), |i: int| text_cell(t, index, i))
}

/// The cell of the `i`-th character of a piece of text, the `index`-th of its line.
pub open spec fn text_cell(t: Text, index: usize, i: int) -> Cell {
    Cell {
        character: t.content@[i],
        width: char_columns(t.content@[i], t.style.size),
        chunk: index,
    }
}

/// The cells of a line: those of each of its pieces, in order.
pub open spec fn line_cells(chunks: Seq<Text>) -> Seq<Cell>
    decreases chunks.len(),
{
    if chunks.len() == 0 {
        Seq::empty()
    } else {
        line_cells(chunks.drop_last()) + text_cells(chunks.last(), (chunks.len() - 1) as usize)
    }
}

/// The columns that the cells in `start..end` take.
pub open spec fn span_width(cells: Seq<Cell>, start: int, end: int) -> nat
    decreases end - start,
{
    if end <= start {
        0
    } else {
        span_width(cells, start, end - 1) + cells[end - 1].width as nat
    }
}

/// The largest end, from `k` on, up to which the cells from `start` fit in `max` columns.
pub open spec fn fit_end(cells: Seq<Cell>, start: int, k: int, max: nat) -> int
    decreases cells.len() - k,
{
    if k < cells.len() && span_width(cells, start, k + 1) <= max {
        fit_end(cells, start, k + 1, max)
    } else {
        k
    }
}

/// Whether a line may end before `k`: at the end of the text or before a space.
pub open spec fn is_word_end(cells: Seq<Cell>, k: int) -> bool {
    k == cells.len() || cells[k].character == ' '
}

/// The largest word end in `start + 1..=k`, or `start` when there's none.
pub open spec fn last_word_end(cells: Seq<Cell>, start: int, k: int) -> int
    decreases k - start,
{
    if k <= start {
        start
    } else if is_word_end(cells, k) {
        k
    } else {
        last_word_end(cells, start, k - 1)
    }
}

/// Where a line starting at `start` ends: after the last whole word that fits; when no whole
/// word fits, after as many characters as fit; and after one character when none fits.
pub open spec fn line_end(cells: Seq<Cell>, start: int, max: nat) -> int {
    let limit = fit_end(cells, start, start, max);
    let word = last_word_end(cells, start, limit);
    if word > start {
        word
    } else if limit > start {
        limit
    } else {
        start + 1
    }
}

/// The first cell from `k` on that isn't a space.
pub open spec fn skip_spaces(cells: Seq<Cell>, k: int) -> int
    decreases cells.len() - k,
{
    if 0 <= k < cells.len() && cells[k].character == ' ' {
        skip_spaces(cells, k + 1)
    } else {
        k
    }
}

/// The lines, as ranges of cells, that wrapping the cells from `start` on in `max` columns
/// gives; the spaces where a line breaks are dropped.
pub open spec fn wrap_ranges(cells: Seq<Cell>, start: int, max: nat) -> Seq<(int, int)>
    decreases cells.len() - start,
{
    if start < 0 || start >= cells.len() {
        Seq::empty()
    } else {
        let end = line_end(cells, start, max);
        let next = skip_spaces(cells, end);
        if end <= start || next < end || next > cells.len() {
            seq![(start, end)]
        } else {
            seq![(start, end)] + wrap_ranges(cells, next, max)
        }
    }
}

/// The cells of a line.
pub fn line_cells_of(line: &WeightedLine) -> (cells: Vec<Cell>)
    ensures
        cells@ == line_cells(line.chunks@),
{
    let mut cells: Vec<Cell> = Vec::new();
    let mut i: usize = 0;
    while i < line.chunks.len()
        invariant
            i <= line.chunks@.len(),
            cells@ == line_cells(line.chunks@.take(i as int)),
        decreases line.chunks@.len() - i,
    {
        let text = &line.chunks[i];
        let content: Vec<char> = crate::text_util::str_chars(text.content.as_str());
        let ghost before = cells@;
        let mut j: usize = 0;
        while j < content.len()
            invariant
                i < line.chunks@.len(),
                *text == line.chunks@[i as int],
                content@ == text.content@,
                j <= content@.len(),
                cells@ == before + text_cells(*text, i).take(j as int),
            decreases content@.len() - j,
        {
            let c = content[j];
            let width = char_width(c, text.style.size);
            let cell = Cell { character: c, width, chunk: i };
            assert(text_cells(*text, i)[j as int] == cell);
            cells.push(cell);
            j += 1;
            assert(cells@ =~= before + text_cells(*text, i).take(j as int));
        }
        proof {
            assert(text_cells(*text, i).take(content@.len() as int) =~= text_cells(*text, i));
            let taken = line.chunks@.take(i + 1);
            assert(taken.drop_last() =~= line.chunks@.take(i as int));
            assert(taken.last() == *text);
        }
        i += 1;
    }
    assert(line.chunks@.take(line.chunks@.len() as int) =~= line.chunks@);
    cells
}

/// The columns a character takes in a given font size, capped at `usize::MAX`.
fn char_width(c: char, size: u8) -> (w: usize)
    ensures
        w == char_columns(c, size),
{
    let mut s = String::new();
    string_push(&mut s, c);
    assert(s@ =~= seq![c]);
    let w = display_width(s.as_str());
    let size = size as usize;
    proof {
        vstd::arithmetic::mul::lemma_mul_nonnegative(w as int, size as int);
    }
    match w.checked_mul(size) {
        Some(v) => v,
        None => usize::MAX,
    }
}

/// The character of a cell.
pub open spec fn cell_char(c: Cell) -> char {
    c.character
}

/// The end of the run of cells from the same piece of text that starts at `k`, within `end`.
pub open spec fn run_end(cells: Seq<Cell>, start: int, k: int, end: int) -> int
    decreases end - k,
{
    if k < end && cells[k].chunk == cells[start].chunk {
        run_end(cells, start, k + 1, end)
    } else {
        k
    }
}

/// The pieces of text that the cells in `start..end` make: one per run of cells from the same
/// piece of the line, with that piece's style.
pub open spec fn pieces(cells: Seq<Cell>, chunks: Seq<Text>, start: int, end: int) -> Seq<(Seq<char>, TextStyle)>
    decreases end - start,
{
    if start >= end {
        Seq::empty()
    } else {
        let r = run_end(cells, start, start + 1, end);
        if r <= start || r > end {
            Seq::empty()
        } else {
            seq![(cells.subrange(start, r).map_values(|c: Cell| cell_char(c)), chunks[cells[start].chunk as int].style)]
                + pieces(cells, chunks, r, end)
        }
    }
}

/// The lines that wrapping a line in `max` columns gives, each as its pieces of text.
pub open spec fn wrapped_lines(chunks: Seq<Text>, max: nat) -> Seq<Seq<(Seq<char>, TextStyle)>> {
    let cells = line_cells(chunks);
    let ranges = wrap_ranges(cells, 0, max);
    Seq::new(ranges.len(), |i: int| pieces(cells, chunks, ranges[i].0, ranges[i].1))
}

/// What a piece of text holds.
pub open spec fn text_parts(t: Text) -> (Seq<char>, TextStyle) {
    (t.content@, t.style)
}

/// `fit_end` never goes back, nor past the end.
proof fn lemma_fit_end_bounds(cells: Seq<Cell>, start: int, k: int, max: nat)
    requires
        0 <= k <= cells.len(),
    ensures
        k <= fit_end(cells, start, k, max) <= cells.len(),
    decreases cells.len() - k,
{
    if k < cells.len() && span_width(cells, start, k + 1) <= max {
        lemma_fit_end_bounds(cells, start, k + 1, max);
    }
}

/// `last_word_end` stays between the start and where the search began.
proof fn lemma_last_word_end_bounds(cells: Seq<Cell>, start: int, k: int)
    requires
        start <= k,
    ensures
        start <= last_word_end(cells, start, k) <= k,
    decreases k - start,
{
    if k > start && !is_word_end(cells, k) {
        lemma_last_word_end_bounds(cells, start, k - 1);
    }
}

/// `skip_spaces` never goes back, nor past the end.
proof fn lemma_skip_spaces_bounds(cells: Seq<Cell>, k: int)
    requires
        0 <= k <= cells.len(),
    ensures
        k <= skip_spaces(cells, k) <= cells.len(),
    decreases cells.len() - k,
{
    if k < cells.len() && cells[k].character == ' ' {
        lemma_skip_spaces_bounds(cells, k + 1);
    }
}

/// A line ends after its start and no further than the end.
proof fn lemma_line_end_bounds(cells: Seq<Cell>, start: int, max: nat)
    requires
        0 <= start < cells.len(),
    ensures
        start < line_end(cells, start, max) <= cells.len(),
{
    lemma_fit_end_bounds(cells, start, start, max);
    lemma_last_word_end_bounds(cells, start, fit_end(cells, start, start, max));
}

/// Where a line starting at `start` ends.
fn find_line_end(cells: &[Cell], start: usize, max: u16) -> (e: usize)
    requires
        start < cells@.len(),
    ensures
        e == line_end(cells@, start as int, max as nat),
        start < e <= cells@.len(),
{
    proof {
        lemma_line_end_bounds(cells@, start as int, max as nat);
    }
    let n = cells.len();
    let mut k: usize = start;
    let mut width: u64 = 0;
    while k < n
        invariant_except_break
            start <= k <= n,
            n == cells@.len(),
            width == span_width(cells@, start as int, k as int),
            width <= max,
            fit_end(cells@, start as int, start as int, max as nat) == fit_end(
                cells@,
                start as int,
                k as int,
                max as nat,
            ),
        ensures
            start <= k <= n,
            fit_end(cells@, start as int, start as int, max as nat) == k,
        decreases n - k,
    {
        let w = cells[k].width;
        if w as u64 > max as u64 - width {
            assert(span_width(cells@, start as int, k + 1) > max);
            break;
        }
        width = width + w as u64;
        k += 1;
    }
    let limit = k;
    let mut j: usize = limit;
    while j > start && !(j == n || cells[j].character == ' ')
        invariant
            start <= j <= limit <= n,
            n == cells@.len(),
            last_word_end(cells@, start as int, limit as int) == last_word_end(
                cells@,
                start as int,
                j as int,
            ),
        decreases j,
    {
        j -= 1;
    }
    if j > start {
        j
    } else if limit > start {
        limit
    } else {
        start + 1
    }
}

/// The first cell from `k` on that isn't a space.
fn find_skip_spaces(cells: &[Cell], k: usize) -> (r: usize)
    requires
        k <= cells@.len(),
    ensures
        r == skip_spaces(cells@, k as int),
        k <= r <= cells@.len(),
{
    proof {
        lemma_skip_spaces_bounds(cells@, k as int);
    }
    let mut r = k;
    while r < cells.len() && cells[r].character == ' '
        invariant
            k <= r <= cells@.len(),
            skip_spaces(cells@, k as int) == skip_spaces(cells@, r as int),
        decreases cells@.len() - r,
    {
        r += 1;
    }
    r
}

/// The lines, as ranges of cells, that wrapping the cells in `max` columns gives.
pub fn wrap_cells(cells: &[Cell], max: u16) -> (ranges: Vec<(usize, usize)>)
    ensures
        ranges@.len() == wrap_ranges(cells@, 0, max as nat).len(),
        forall|i: int|
            0 <= i < ranges@.len() ==> ranges@[i].0 == wrap_ranges(cells@, 0, max as nat)[i].0
                && ranges@[i].1 == wrap_ranges(cells@, 0, max as nat)[i].1,
{
    let ghost total = wrap_ranges(cells@, 0, max as nat);
    let mut ranges: Vec<(usize, usize)> = Vec::new();
    let mut start: usize = 0;
    let ghost mut done: Seq<(int, int)> = Seq::empty();
    while start < cells.len()
        invariant
            start <= cells@.len(),
            total == wrap_ranges(cells@, 0, max as nat),
            total == done + wrap_ranges(cells@, start as int, max as nat),
            ranges@.len() == done.len(),
            forall|i: int|
                0 <= i < done.len() ==> ranges@[i].0 == done[i].0 && ranges@[i].1 == done[i].1,
        decreases cells@.len() - start,
    {
        let end = find_line_end(cells, start, max);
        let next = find_skip_spaces(cells, end);
        ranges.push((start, end));
        proof {
            let rest = wrap_ranges(cells@, next as int, max as nat);
            assert(wrap_ranges(cells@, start as int, max as nat) == seq![(start as int, end as int)]
                + rest);
            done = done.push((start as int, end as int));
            assert(total =~= done + rest);
        }
        start = next;
    }
    proof {
        assert(wrap_ranges(cells@, start as int, max as nat) =~= Seq::<(int, int)>::empty());
        assert(total =~= done);
    }
    ranges
}

/// Every cell of a line comes from one of its pieces.
proof fn lemma_cells_chunks(chunks: Seq<Text>)
    ensures
        forall|k: int|
            0 <= k < line_cells(chunks).len() ==> (#[trigger] line_cells(chunks)[k]).chunk
                < chunks.len(),
    decreases chunks.len(),
{
    if chunks.len() > 0 {
        lemma_cells_chunks(chunks.drop_last());
        let a = line_cells(chunks.drop_last());
        let b = text_cells(chunks.last(), (chunks.len() - 1) as usize);
        assert forall|k: int| 0 <= k < line_cells(chunks).len() implies (#[trigger] line_cells(
            chunks,
        )[k]).chunk < chunks.len() by {
            if k < a.len() {
                assert(line_cells(chunks)[k] == a[k]);
            } else {
                assert(line_cells(chunks)[k] == b[k - a.len()]);
            }
        }
    }
}

/// The pieces of text that the cells in `start..end` make.
fn line_pieces(cells: &[Cell], chunks: &[Text], start: usize, end: usize) -> (out: Vec<Text>)
    requires
        start <= end <= cells@.len(),
        forall|k: int| 0 <= k < cells@.len() ==> (#[trigger] cells@[k]).chunk < chunks@.len(),
    ensures
        out@.len() == pieces(cells@, chunks@, start as int, end as int).len(),
        forall|i: int|
            0 <= i < out@.len() ==> text_parts(#[trigger] out@[i]) == pieces(
                cells@,
                chunks@,
                start as int,
                end as int,
            )[i],
{
    let ghost total = pieces(cells@, chunks@, start as int, end as int);
    let ghost mut done: Seq<(Seq<char>, TextStyle)> = Seq::empty();
    let mut out: Vec<Text> = Vec::new();
    let mut s = start;
    while s < end
        invariant
            start <= s <= end <= cells@.len(),
            forall|k: int| 0 <= k < cells@.len() ==> (#[trigger] cells@[k]).chunk < chunks@.len(),
            total == done + pieces(cells@, chunks@, s as int, end as int),
            out@.len() == done.len(),
            forall|i: int| 0 <= i < out@.len() ==> text_parts(#[trigger] out@[i]) == done[i],
        decreases end - s,
    {
        let chunk = cells[s].chunk;
        let mut r = s + 1;
        while r < end && cells[r].chunk == chunk
            invariant
                s < r <= end <= cells@.len(),
                chunk == cells@[s as int].chunk,
                run_end(cells@, s as int, s + 1, end as int) == run_end(
                    cells@,
                    s as int,
                    r as int,
                    end as int,
                ),
            decreases end - r,
        {
            r += 1;
        }
        let mut content = String::new();
        let mut k = s;
        while k < r
            invariant
                s <= k <= r <= cells@.len(),
                content@ == cells@.subrange(s as int, k as int).map_values(|c: Cell| cell_char(c)),
            decreases r - k,
        {
            string_push(&mut content, cells[k].character);
            k += 1;
            assert(content@ =~= cells@.subrange(s as int, k as int).map_values(|c: Cell| cell_char(c)));
        }
        let text = Text { content, style: chunks[chunk].style };
        proof {
            let piece = (
                cells@.subrange(s as int, r as int).map_values(|c: Cell| cell_char(c)),
                chunks@[cells@[s as int].chunk as int].style,
            );
            assert(pieces(cells@, chunks@, s as int, end as int) == seq![piece] + pieces(
                cells@,
                chunks@,
                r as int,
                end as int,
            ));
            done = done.push(piece);
            assert(total =~= done + pieces(cells@, chunks@, r as int, end as int));
        }
        out.push(text);
        s = r;
    }
    proof {
        assert(total =~= done);
    }
    out
}

impl WeightedLine {
    /// Wraps this line in `max` columns: each line ends after the last whole word that fits,
    /// or after as many characters as fit when a word alone doesn't, and the spaces where it
    /// breaks are dropped. Each line is made of pieces of text with the styles of the pieces
    /// they come from.
    pub fn split(&self, max: u16) -> (lines: Vec<Vec<Text>>)
        ensures
            lines@.len() == wrapped_lines(self.chunks@, max as nat).len(),
            forall|i: int|
                0 <= i < lines@.len() ==> (#[trigger] lines@[i])@.len() == wrapped_lines(
                    self.chunks@,
                    max as nat,
                )[i].len(),
            forall|i: int, j: int|
                0 <= i < lines@.len() && 0 <= j < lines@[i]@.len() ==> text_parts(
                    #[trigger] lines@[i]@[j],
                ) == wrapped_lines(self.chunks@, max as nat)[i][j],
    {
        let cells = line_cells_of(self);
        proof {
            lemma_cells_chunks(self.chunks@);
        }
        let ranges = wrap_cells(cells.as_slice(), max);
        let ghost wrapped = wrapped_lines(self.chunks@, max as nat);
        let mut lines: Vec<Vec<Text>> = Vec::new();
        let mut i: usize = 0;
        while i < ranges.len()
            invariant
                i <= ranges@.len(),
                cells@ == line_cells(self.chunks@),
                forall|k: int| 0 <= k < cells@.len() ==> (#[trigger] cells@[k]).chunk < self.chunks@.len(),
                ranges@.len() == wrap_ranges(cells@, 0, max as nat).len(),
                forall|k: int|
                    0 <= k < ranges@.len() ==> ranges@[k].0 == wrap_ranges(cells@, 0, max as nat)[k].0
                        && ranges@[k].1 == wrap_ranges(cells@, 0, max as nat)[k].1,
                wrapped == wrapped_lines(self.chunks@, max as nat),
                lines@.len() == i,
                forall|k: int| 0 <= k < i ==> (#[trigger] lines@[k])@.len() == wrapped[k].len(),
                forall|k: int, j: int|
                    0 <= k < i && 0 <= j < lines@[k]@.len() ==> text_parts(#[trigger] lines@[k]@[j])
                        == wrapped[k][j],
            decreases ranges@.len() - i,
        {
            let (start, end) = ranges[i];
            proof {
                lemma_wrap_ranges_valid(cells@, 0, max as nat, i as int);
            }
            let line = line_pieces(cells.as_slice(), self.chunks.as_slice(), start, end);
            lines.push(line);
            i += 1;
        }
        lines
    }
}

/// Every range that wrapping gives is a non empty part of the cells.
proof fn lemma_wrap_ranges_valid(cells: Seq<Cell>, start: int, max: nat, i: int)
    requires
        0 <= i < wrap_ranges(cells, start, max).len(),
    ensures
        0 <= wrap_ranges(cells, start, max)[i].0 < wrap_ranges(cells, start, max)[i].1 <= cells.len(),
    decreases cells.len() - start,
{
    let end = line_end(cells, start, max);
    lemma_line_end_bounds(cells, start, max);
    let next = skip_spaces(cells, end);
    if i > 0 {
        lemma_skip_spaces_bounds(cells, end);
        lemma_wrap_ranges_valid(cells, next, max, i - 1);
    }
}

} // verus!
