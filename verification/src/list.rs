//! Markdown list items and the numbering of nested lists.
use crate::builder::{
    chunk_view, font_size_of, is_trace, lemma_no_steps, lemma_trace_push, line_breaks,
    listed_piece, listed_pieces, steps_done, BuildStep, BuilderSettings, BuilderView, ChunkView,
    LastElement, PresentationBuilder,
};
use crate::diff::line_contents;
use crate::operation::{BlockLine, RenderOperation};
use crate::presentation::SlideChunk;
use crate::quote::{line_text_width, text_columns};
use crate::separator::texts_view;
use crate::style::{Colors, TextStyle};
use crate::table::seq_max;
use crate::text::{cap_usize, display_width, str_display_width, Text, WeightedLine};
use crate::theme::{Alignment, Margin};
use crate::text_util::{decimal, repeat_char, str_chars, string_from_chars, usize_to_string};
use vstd::prelude::*;

verus! {

/// The kind of a list item.
#[derive(Clone, Copy, Debug, PartialEq, Eq, Structural)]
pub enum ListItemType {
    /// A bullet.
    Unordered,
    /// A number followed by a parenthesis.
    OrderedParens(usize),
    /// A number followed by a period.
    OrderedPeriod(usize),
}

/// A list item.
#[derive(Clone, Debug)]
pub struct ListItem {
    pub depth: u8,
    pub contents: WeightedLine,
    pub item_type: ListItemType,
}

/// A list item along with its index among its siblings.
#[derive(Debug)]
pub struct IndexedListItem {
    pub index: usize,
    pub item: ListItem,
}

/// The numbering state: the next index at the current depth, the current depth, and the
/// indexes saved for the depths above it.
pub struct ListState {
    pub next_index: usize,
    pub current_depth: u8,
    pub saved_indexes: Seq<usize>,
}

/// Numbering the next item, at the given depth: the index it gets and the state after it.
///
/// Going deeper saves the next index and starts from 0; going back out restores saved indexes,
/// one per level left (0 once none is left).
pub open spec fn list_step(s: ListState, depth: u8) -> (usize, ListState) {
    let (index, saved) = if depth > s.current_depth {
        (0usize, s.saved_indexes.push(s.next_index))
    } else if depth < s.current_depth {
        let k = (s.current_depth - depth) as int;
        let n = s.saved_indexes.len() as int;
        if n >= k {
            (s.saved_indexes[n - k], s.saved_indexes.take(n - k))
        } else {
            (0usize, Seq::empty())
        }
    } else {
        (s.next_index, s.saved_indexes)
    };
    (index, ListState { next_index: (index + 1) as usize, current_depth: depth, saved_indexes: saved })
}

/// Numbers the items of a list, each relative to its siblings, as they come out.
pub struct ListIterator {
    /// The items left, the next one last.
    pub remaining: Vec<ListItem>,
    pub next_index: usize,
    pub current_depth: u8,
    pub saved_indexes: Vec<usize>,
}

impl ListIterator {
    /// The numbering state.
    pub open spec fn state(&self) -> ListState {
        ListState {
            next_index: self.next_index,
            current_depth: self.current_depth,
            saved_indexes: self.saved_indexes@,
        }
    }

    /// No index can overflow while the remaining items are numbered.
    pub open spec fn wf(&self) -> bool {
        &&& self.next_index + self.remaining@.len() <= usize::MAX
        &&& forall|i: int|
            0 <= i < self.saved_indexes@.len() ==> #[trigger] self.saved_indexes@[i]
                + self.remaining@.len() <= usize::MAX
    }

    /// An iterator over the given items, numbering the first level from `next_index`.
    pub fn new(items: Vec<ListItem>, next_index: usize) -> (it: Self)
        requires
            next_index + items@.len() <= usize::MAX,
        ensures
            it.remaining@ == items@.reverse(),
            it.state() == (ListState { next_index, current_depth: 0, saved_indexes: Seq::empty() }),
            it.wf(),
    {
        let mut items = items;
        let mut remaining: Vec<ListItem> = Vec::new();
        let ghost original = items@;
        while items.len() > 0
            invariant
                original == items@ + remaining@.reverse(),
            decreases items@.len(),
        {
            let ghost before = items@;
            let item = items.pop().unwrap();
            remaining.push(item);
            proof {
                assert(before == items@.push(item));
                assert(remaining@.reverse() =~= seq![item] + remaining@.drop_last().reverse());
                assert(original =~= items@ + remaining@.reverse());
            }
        }
        proof {
            assert(remaining@.reverse().reverse() =~= remaining@);
            assert(original.reverse() =~= remaining@);
        }
        ListIterator { remaining, next_index, current_depth: 0, saved_indexes: Vec::new() }
    }

    /// Numbers the next item, if there's one left.
    pub fn next(&mut self) -> (r: Option<IndexedListItem>)
        requires
            old(self).wf(),
        ensures
            final(self).wf(),
            old(self).remaining@.len() == 0 ==> r is None && final(self).state() == old(
                self,
            ).state(),
            old(self).remaining@.len() > 0 ==> {
                let item = old(self).remaining@.last();
                let (index, state) = list_step(old(self).state(), item.depth);
                &&& r matches Some(indexed)
                &&& indexed.index == index
                &&& indexed.item == item
                &&& indexed.item.depth == item.depth
                &&& indexed.item.item_type == item.item_type
                &&& final(self).state() == state
                &&& final(self).remaining@ == old(self).remaining@.drop_last()
            },
    {
        if self.remaining.len() == 0 {
            return None;
        }
        let head = self.remaining.pop().unwrap();
        let ghost s = old(self).state();
        let index: usize;
        if head.depth > self.current_depth {
            self.saved_indexes.push(self.next_index);
            index = 0;
        } else if head.depth < self.current_depth {
            let mut value: usize = self.next_index;
            let mut level: u8 = head.depth;
            let ghost n = s.saved_indexes.len() as int;
            while level < self.current_depth
                invariant
                    head.depth <= level <= self.current_depth,
                    self.current_depth == s.current_depth,
                    n == s.saved_indexes.len(),
                    self.remaining@ == old(self).remaining@.drop_last(),
                    self.next_index == s.next_index,
                    old(self).wf(),
                    s == old(self).state(),
                    (level - head.depth) as int <= n ==> self.saved_indexes@
                        == s.saved_indexes.take(n - (level - head.depth)),
                    (level - head.depth) as int > n ==> self.saved_indexes@.len() == 0,
                    level > head.depth ==> ((level - head.depth) as int <= n ==> value
                        == s.saved_indexes[n - (level - head.depth)]),
                    level > head.depth ==> ((level - head.depth) as int > n ==> value == 0),
                    forall|i: int|
                        0 <= i < self.saved_indexes@.len() ==> #[trigger] self.saved_indexes@[i]
                            == s.saved_indexes[i],
                decreases self.current_depth - level,
            {
                let ghost before = self.saved_indexes@;
                value = match self.saved_indexes.pop() {
                    Some(v) => v,
                    None => 0,
                };
                proof {
                    if (level - head.depth) as int + 1 <= n {
                        assert(self.saved_indexes@ =~= s.saved_indexes.take(
                            n - (level - head.depth) - 1,
                        ));
                    }
                }
                level += 1;
            }
            proof {
                assert(old(self).remaining@.len() == self.remaining@.len() + 1);
                if (self.current_depth - head.depth) as int <= n {
                    let at = n - (self.current_depth - head.depth);
                    assert(value == s.saved_indexes[at]);
                    assert(s.saved_indexes[at] + old(self).remaining@.len() <= usize::MAX);
                }
                assert(value + self.remaining@.len() < usize::MAX);
            }
            index = value;
        } else {
            index = self.next_index;
        }
        self.current_depth = head.depth;
        self.next_index = index + 1;
        proof {
            let (si, st) = list_step(s, head.depth);
            assert(si == index);
            assert(self.saved_indexes@ =~= st.saved_indexes);
            assert(old(self).remaining@.len() == self.remaining@.len() + 1);
            assert forall|i: int| 0 <= i < self.saved_indexes@.len() implies #[trigger] self.saved_indexes@[i]
                + self.remaining@.len() <= usize::MAX by {
                if head.depth > s.current_depth && i == s.saved_indexes.len() {
                    assert(self.saved_indexes@[i] == s.next_index);
                } else {
                    assert(self.saved_indexes@[i] == s.saved_indexes[i]);
                    assert(s.saved_indexes[i] + old(self).remaining@.len() <= usize::MAX);
                }
            }
        }
        Some(IndexedListItem { index, item: head })
    }

    /// Numbers every remaining item, in order.
    pub fn collect_all(&mut self) -> (items: Vec<IndexedListItem>)
        requires
            old(self).wf(),
        ensures
            items@.len() == old(self).remaining@.len(),
            final(self).remaining@.len() == 0,
    {
        let mut items: Vec<IndexedListItem> = Vec::new();
        let ghost total = self.remaining@.len();
        while self.remaining.len() > 0
            invariant
                self.wf(),
                items@.len() + self.remaining@.len() == total,
            decreases self.remaining@.len(),
        {
            match self.next() {
                Some(item) => items.push(item),
                None => {},
            }
        }
        items
    }
}

/// The number of spaces per indentation level of a list item.
pub open spec fn spaces_per_indent(depth: u8, font_size: u8) -> nat {
    if depth == 0 {
        ((3 + font_size - 1) / font_size as int) as nat
    } else if font_size == 1 {
        3
    } else {
        2
    }
}

/// The text before a list item: indentation, then a bullet or the item's number.
pub open spec fn list_item_prefix_text(depth: u8, item_type: ListItemType, font_size: u8) -> Seq<
    char,
> {
    let padding = Seq::new(((depth + 1) * spaces_per_indent(depth, font_size)) as nat, |_i: int| ' ');
    match item_type {
        ListItemType::Unordered => {
            let delimiter = if depth == 0 {
                '•'
            } else if depth == 1 {
                '◦'
            } else {
                '▪'
            };
            padding + seq![delimiter, ' ', ' ']
        },
        ListItemType::OrderedParens(value) => padding + decimal(value as nat) + seq![')', ' '],
        ListItemType::OrderedPeriod(value) => padding + decimal(value as nat) + seq!['.', ' '],
    }
}

/// The prefix of a list item, in the given font size.
pub fn list_item_prefix(item: &ListItem, font_size: u8) -> (t: Text)
    requires
        font_size >= 1,
    ensures
        t.content@ == list_item_prefix_text(item.depth, item.item_type, font_size),
        t.style == (TextStyle { size: font_size, ..TextStyle::plain() }),
{
    let indent: u8 = if item.depth == 0 {
        if font_size == 1 {
            3
        } else if font_size == 2 {
            2
        } else {
            1
        }
    } else if font_size == 1 {
        3
    } else {
        2
    };
    assert(indent as nat == spaces_per_indent(item.depth, font_size)) by {
        let f = font_size as int;
        if f >= 3 {
            assert((3 + f - 1) / f == 1) by (nonlinear_arith)
                requires
                    f >= 3,
            ;
        } else if f == 2 {
            assert((3 + f - 1) / f == 2);
        } else {
            assert((3 + f - 1) / f == 3);
        }
    }
    assert((item.depth as int + 1) * indent as int <= 256 * 3) by (nonlinear_arith)
        requires
            item.depth <= 255,
            indent <= 3,
    ;
    let padding_length: usize = (item.depth as usize + 1) * indent as usize;
    assert(padding_length as nat == ((item.depth + 1) * spaces_per_indent(item.depth, font_size)) as nat);
    let prefix = repeat_char(' ', padding_length);
    let mut chars = str_chars(prefix.as_str());
    let ghost pad = chars@;
    match item.item_type {
        ListItemType::Unordered => {
            let delimiter = if item.depth == 0 {
                '•'
            } else if item.depth == 1 {
                '◦'
            } else {
                '▪'
            };
            chars.push(delimiter);
            chars.push(' ');
            chars.push(' ');
        },
        ListItemType::OrderedParens(value) => {
            let number = usize_to_string(value);
            let digits = str_chars(number.as_str());
            let mut i: usize = 0;
            while i < digits.len()
                invariant
                    i <= digits@.len(),
                    chars@ == pad + digits@.take(i as int),
                decreases digits@.len() - i,
            {
                chars.push(digits[i]);
                i += 1;
                assert(chars@ =~= pad + digits@.take(i as int));
            }
            assert(digits@.take(digits@.len() as int) =~= digits@);
            chars.push(')');
            chars.push(' ');
        },
        ListItemType::OrderedPeriod(value) => {
            let number = usize_to_string(value);
            let digits = str_chars(number.as_str());
            let mut i: usize = 0;
            while i < digits.len()
                invariant
                    i <= digits@.len(),
                    chars@ == pad + digits@.take(i as int),
                decreases digits@.len() - i,
            {
                chars.push(digits[i]);
                i += 1;
                assert(chars@ =~= pad + digits@.take(i as int));
            }
            assert(digits@.take(digits@.len() as int) =~= digits@);
            chars.push('.');
            chars.push(' ');
        },
    }
    let content = string_from_chars(chars.as_slice());
    proof {
        assert(content@ =~= list_item_prefix_text(item.depth, item.item_type, font_size));
    }
    Text { content, style: TextStyle::default().size(font_size) }
}

/// The numbering of a list's first `k` items, from a numbering state: their indexes and the
/// state after them.
pub open spec fn list_numbering(items: Seq<ListItem>, start: ListState, k: nat) -> (
    Seq<usize>,
    ListState,
)
    decreases k,
{
    if k == 0 {
        (Seq::empty(), start)
    } else {
        let (indexes, state) = list_numbering(items, start, (k - 1) as nat);
        let (index, next) = list_step(state, items[k - 1].depth);
        (indexes.push(index), next)
    }
}

/// The numbering of `k` items has `k` indexes.
pub proof fn lemma_numbering_len(items: Seq<ListItem>, start: ListState, k: nat)
    ensures
        list_numbering(items, start, k).0.len() == k,
    decreases k,
{
    if k > 0 {
        lemma_numbering_len(items, start, (k - 1) as nat);
    }
}

/// The numbering state a list starts in: its first level counts from `next_index`.
pub open spec fn starting_state(next_index: usize) -> ListState {
    ListState { next_index, current_depth: 0, saved_indexes: Seq::empty() }
}

/// The columns an item takes: its prefix and its text, whatever their font size.
pub open spec fn item_columns(item: ListItem, font_size: u8) -> usize {
    cap_usize(
        str_display_width(list_item_prefix_text(item.depth, item.item_type, font_size)) as nat
            + cap_usize(text_columns(line_contents(item.contents))) as nat,
    )
}

/// The columns of a list's widest item.
pub open spec fn list_columns(items: Seq<ListItem>, font_size: u8) -> usize {
    seq_max(items.map_values(|l: ListItem| item_columns(l, font_size)))
}

/// The length of a list's block: its widest item's columns, truncated to 16 bits, times the
/// font size.
pub open spec fn list_block_length(items: Seq<ListItem>, font_size: u8) -> int {
    (list_columns(items, font_size) as u16) * font_size
}

/// Whether a list picks up where the last chunk's list ended: that chunk ended in a list with a
/// line break, and nothing is pending.
pub open spec fn list_resumes(b: BuilderView) -> bool {
    &&& b.chunks.len() > 0
    &&& b.chunks.last().operations.len() > 0
    &&& b.chunks.last().operations.last() is RenderLineBreak
    &&& b.state.last_chunk_ended_in_list
    &&& b.operations.len() == 0
}

/// Where a list starts from: when it picks up the last chunk's list, without that chunk's last
/// line break, so that the items stay together.
pub open spec fn list_start_view(b: BuilderView) -> BuilderView {
    if list_resumes(b) {
        let last = b.chunks.last();
        BuilderView {
            chunks: b.chunks.drop_last().push(
                ChunkView { operations: last.operations.drop_last(), ..last },
            ),
            ..b
        }
    } else {
        b
    }
}

/// The index a list's first level starts from: one after the last list's when nothing was
/// pushed since it, else 0.
pub open spec fn list_start_index(b: BuilderView) -> int {
    match b.state.last_element {
        LastElement::List { last_index } => if b.operations.len() == 0 {
            last_index + 1
        } else {
            0
        },
        _ => 0,
    }
}

/// The steps of a list's first `k` items: each item, after a pause but for the first when the
/// items show one after the other.
pub open spec fn list_item_steps(
    items: Seq<ListItem>,
    start: usize,
    block_length: u16,
    code_colors: Colors,
    incremental: bool,
    k: nat,
) -> Seq<BuildStep>
    decreases k,
{
    if k == 0 {
        Seq::empty()
    } else {
        let pause = if k > 1 && incremental {
            seq![BuildStep::Pause]
        } else {
            Seq::empty()
        };
        let item = items[k - 1];
        list_item_steps(items, start, block_length, code_colors, incremental, (k - 1) as nat)
            + pause + seq![
            BuildStep::ListItem {
                index: list_numbering(items, starting_state(start), k).0[k - 1],
                depth: item.depth,
                item_type: item.item_type,
                pieces: line_contents(item.contents),
                block_length,
                code_colors,
            },
        ]
    }
}

/// The steps of a list: a pause first when an incremental list starts with one, the items, and
/// a pause last when an incremental list ends with one. A list is incremental when a comment
/// said so, or else when the settings say so.
pub open spec fn list_steps(
    items: Seq<ListItem>,
    start: usize,
    block_length: u16,
    code_colors: Colors,
    settings: BuilderSettings,
    incremental_lists: Option<bool>,
) -> Seq<BuildStep> {
    let incremental = match incremental_lists {
        Some(v) => v,
        None => settings.incremental_lists,
    };
    let before = if incremental && settings.pause_before_incremental_lists {
        seq![BuildStep::Pause]
    } else {
        Seq::empty()
    };
    let after = if incremental && settings.pause_after_incremental_lists {
        seq![BuildStep::Pause]
    } else {
        Seq::empty()
    };
    before + list_item_steps(items, start, block_length, code_colors, incremental, items.len())
        + after
}

/// The columns of a list's widest item, at a font size: its prefix and its text.
pub fn list_width(items: &Vec<ListItem>, font_size: u8) -> (w: usize)
    requires
        font_size >= 1,
    ensures
        w == list_columns(items@, font_size),
{
    let ghost widths = items@.map_values(|l: ListItem| item_columns(l, font_size));
    let mut widest: usize = 0;
    let mut k: usize = 0;
    assert(widths.take(0) =~= Seq::<usize>::empty());
    while k < items.len()
        invariant
            font_size >= 1,
            k <= items@.len(),
            widths == items@.map_values(|l: ListItem| item_columns(l, font_size)),
            widest == seq_max(widths.take(k as int)),
        decreases items@.len() - k,
    {
        let prefix = list_item_prefix(&items[k], font_size);
        let total = display_width(prefix.content.as_str()).saturating_add(
            line_text_width(&items[k].contents),
        );
        assert(widths.take(k + 1).drop_last() =~= widths.take(k as int));
        assert(total == widths[k as int]);
        if total > widest {
            widest = total;
        }
        k += 1;
    }
    assert(widths.take(k as int) =~= widths);
    widest
}

impl PresentationBuilder {
    /// A list item: its prefix and text in a block of the given length, then the line breaks
    /// that follow a list item; a top level item is remembered as the last list's.
    fn push_list_item(&mut self, index: usize, item: &ListItem, block_length: u16, code_colors: Colors)
        ensures
            crate::builder::step_done(
                old(self).view(),
                old(self).prelude,
                old(self).settings,
                BuildStep::ListItem {
                    index,
                    depth: item.depth,
                    item_type: item.item_type,
                    pieces: line_contents(item.contents),
                    block_length,
                    code_colors,
                },
                final(self).view(),
            ),
            final(self).settings == old(self).settings,
            final(self).prelude == old(self).prelude,
    {
        let font_size = self.slide_font_size();
        let prefix = list_item_prefix(item, font_size);
        let ghost shown = listed_pieces(line_contents(item.contents), code_colors, font_size);
        let mut chunks: Vec<Text> = Vec::new();
        let mut c: usize = 0;
        while c < item.contents.chunks.len()
            invariant
                c <= item.contents.chunks@.len(),
                shown == listed_pieces(line_contents(item.contents), code_colors, font_size),
                texts_view(chunks@) == shown.take(c as int),
            decreases item.contents.chunks@.len() - c,
        {
            let chunk = &item.contents.chunks[c];
            let mut style = chunk.style;
            if style.is_code() {
                style.colors = code_colors;
            }
            style = style.size(font_size);
            let ghost before = chunks@;
            chunks.push(Text { content: chunk.content.clone(), style });
            assert(texts_view(chunks@) =~= texts_view(before).push(shown[c as int]));
            c += 1;
            assert(texts_view(chunks@) =~= shown.take(c as int));
        }
        assert(shown.take(c as int) =~= shown);
        let alignment = match self.slide_state.alignment {
            Some(a) => a,
            None => Alignment::default(),
        };
        let ghost start = self.chunk_operations@;
        self.chunk_operations.push(
            RenderOperation::RenderBlockLine(
                BlockLine {
                    prefix,
                    right_padding_length: 0,
                    repeat_prefix_on_wrap: false,
                    text: WeightedLine { chunks },
                    block_length,
                    alignment,
                    block_color: None,
                },
            ),
        );
        let newlines = match self.slide_state.list_item_newlines {
            Some(count) => count,
            None => self.settings.list_item_newlines,
        };
        let ghost with_item = self.chunk_operations@;
        self.push_line_breaks(newlines as usize);
        proof {
            let ops = self.chunk_operations@;
            assert(ops =~= with_item + line_breaks(newlines as nat));
            assert(ops.take(start.len() as int) =~= start);
            assert(ops.skip(start.len() + 1 as int) =~= line_breaks(newlines as nat));
            assert(ops[start.len() as int] == with_item.last());
        }
        if item.depth == 0 {
            self.slide_state.last_element = LastElement::List { last_index: index };
        }
    }

    /// A list: its items one below the other in a block as wide as the widest, numbered from
    /// where the last list stopped when nothing came since, with pauses between items when the
    /// list is incremental.
    pub fn push_list(&mut self, list: Vec<ListItem>, code_colors: Colors)
        requires
            list_start_index(old(self).view()) + list@.len() <= usize::MAX,
            list_block_length(
                list@,
                font_size_of(old(self).slide_state, old(self).settings.font_size_supported),
            ) <= u16::MAX,
        ensures
            steps_done(
                list_start_view(old(self).view()),
                old(self).prelude,
                old(self).settings,
                list_steps(
                    list@,
                    list_start_index(old(self).view()) as usize,
                    list_block_length(
                        list@,
                        font_size_of(old(self).slide_state, old(self).settings.font_size_supported),
                    ) as u16,
                    code_colors,
                    old(self).settings,
                    old(self).slide_state.incremental_lists,
                ),
                final(self).view(),
            ),
            final(self).settings == old(self).settings,
            final(self).prelude == old(self).prelude,
    {
        let ghost items = list@;
        let ghost first = list_start_view(self.view());
        let chunk_count = self.slide_chunks.len();
        if chunk_count > 0 && self.slide_state.last_chunk_ended_in_list && self.chunk_operations.len() == 0 {
            let mut last = self.slide_chunks.pop().unwrap();
            let ends_in_break = match last.operations.last() {
                Some(RenderOperation::RenderLineBreak) => true,
                _ => false,
            };
            if ends_in_break {
                last.pop_last();
            }
            self.slide_chunks.push(last);
            proof {
                if ends_in_break {
                    assert(self.view().chunks =~= first.chunks);
                } else {
                    assert(self.view().chunks =~= old(self).view().chunks);
                }
            }
        }
        assert(self.view() == first);
        let start_index: usize = match self.slide_state.last_element {
            LastElement::List { last_index } => if self.chunk_operations.len() == 0 {
                last_index + 1
            } else {
                0
            },
            _ => 0,
        };
        let font_size = self.slide_font_size();
        let widest = list_width(&list, font_size);
        let block_length: u16 = (#[verifier::truncate] (widest as u16)) * font_size as u16;
        let incremental = match self.slide_state.incremental_lists {
            Some(v) => v,
            None => self.settings.incremental_lists,
        };
        let ghost mut steps: Seq<BuildStep> = Seq::empty();
        let ghost mut views: Seq<BuilderView> = seq![first];
        proof {
            lemma_no_steps(first, self.prelude, self.settings);
        }
        if incremental && self.settings.pause_before_incremental_lists {
            self.push_pause_step();
            proof {
                lemma_trace_push(self.prelude, self.settings, steps, views, BuildStep::Pause, self.view());
                steps = steps.push(BuildStep::Pause);
                views = views.push(self.view());
            }
        }
        let ghost prefix = steps;
        let mut iter = ListIterator::new(list, start_index);
        let mut k: usize = 0;
        assert(prefix + list_item_steps(items, start_index, block_length, code_colors, incremental, 0) =~= steps);
        assert(iter.remaining@ =~= items.subrange(0, items.len() as int).reverse());
        while iter.remaining.len() > 0
            invariant
                iter.wf(),
                k <= items.len(),
                items.len() <= usize::MAX,
                iter.remaining@ == items.subrange(k as int, items.len() as int).reverse(),
                iter.state() == list_numbering(items, starting_state(start_index), k as nat).1,
                self.settings == old(self).settings,
                self.prelude == old(self).prelude,
                is_trace(self.prelude, self.settings, steps, views),
                views[0] == first,
                views.last() == self.view(),
                steps == prefix + list_item_steps(
                    items,
                    start_index,
                    block_length,
                    code_colors,
                    incremental,
                    k as nat,
                ),
            decreases iter.remaining@.len(),
        {
            let ghost state = iter.state();
            let ghost expected = items[k as int];
            let ghost before_steps = steps;
            assert(k < items.len());
            assert(iter.remaining@.last() == expected);
            let next = iter.next();
            let indexed = match next {
                Some(indexed) => indexed,
                None => {
                    assert(false);
                    return;
                },
            };
            if k > 0 && incremental {
                self.push_pause_step();
                proof {
                    lemma_trace_push(self.prelude, self.settings, steps, views, BuildStep::Pause, self.view());
                    steps = steps.push(BuildStep::Pause);
                    views = views.push(self.view());
                }
            }
            let ghost item_step = BuildStep::ListItem {
                index: indexed.index,
                depth: indexed.item.depth,
                item_type: indexed.item.item_type,
                pieces: line_contents(indexed.item.contents),
                block_length,
                code_colors,
            };
            self.push_list_item(indexed.index, &indexed.item, block_length, code_colors);
            proof {
                lemma_trace_push(self.prelude, self.settings, steps, views, item_step, self.view());
                steps = steps.push(item_step);
                views = views.push(self.view());
            }
            k += 1;
            proof {
                lemma_numbering_len(items, starting_state(start_index), (k - 1) as nat);
                let numbering = list_numbering(items, starting_state(start_index), k as nat);
                assert(numbering.0[k - 1] == indexed.index);
                assert(indexed.item == expected);
                assert(iter.remaining@ =~= items.subrange(k as int, items.len() as int).reverse());
                assert(steps =~= prefix + list_item_steps(
                    items,
                    start_index,
                    block_length,
                    code_colors,
                    incremental,
                    k as nat,
                ));
            }
        }
        assert(k == items.len());
        if incremental && self.settings.pause_after_incremental_lists {
            self.push_pause_step();
            proof {
                lemma_trace_push(self.prelude, self.settings, steps, views, BuildStep::Pause, self.view());
                steps = steps.push(BuildStep::Pause);
                views = views.push(self.view());
            }
        }
        assert(steps =~= list_steps(
            items,
            start_index,
            block_length,
            code_colors,
            old(self).settings,
            old(self).slide_state.incremental_lists,
        ));
        assert(is_trace(self.prelude, self.settings, steps, views));
    }
}

impl PresentationBuilder {
    /// A list, as `push_list` pushes it, when its block fits in 16 bits at the slide's font
    /// size; otherwise nothing is pushed and the result is false.
    pub fn push_list_checked(&mut self, list: Vec<ListItem>, code_colors: Colors) -> (pushed: bool)
        requires
            list_start_index(old(self).view()) + list@.len() <= usize::MAX,
        ensures
            pushed == (list_block_length(
                list@,
                font_size_of(old(self).slide_state, old(self).settings.font_size_supported),
            ) <= u16::MAX),
            pushed ==> steps_done(
                list_start_view(old(self).view()),
                old(self).prelude,
                old(self).settings,
                list_steps(
                    list@,
                    list_start_index(old(self).view()) as usize,
                    list_block_length(
                        list@,
                        font_size_of(old(self).slide_state, old(self).settings.font_size_supported),
                    ) as u16,
                    code_colors,
                    old(self).settings,
                    old(self).slide_state.incremental_lists,
                ),
                final(self).view(),
            ),
            !pushed ==> final(self).view() == old(self).view(),
            final(self).settings == old(self).settings,
            final(self).prelude == old(self).prelude,
    {
        let font_size = self.slide_font_size();
        let widest = list_width(&list, font_size);
        let columns = #[verifier::truncate] (widest as u16);
        assert((columns as int) * (font_size as int) <= 65535 * 255) by (nonlinear_arith)
            requires
                columns <= 65535,
                font_size <= 255,
        ;
        if (columns as u32) * (font_size as u32) <= 65535 {
            self.push_list(list, code_colors);
            true
        } else {
            false
        }
    }
}

/// The index the next item at depth `l` gets after a list's first `k` items: counting from
/// `start` at the top level and from 0 below it, one more for every earlier item at that depth
/// since the last item shallower than it.
pub open spec fn next_at(items: Seq<ListItem>, start: usize, k: nat, l: u8) -> int
    decreases k,
{
    if k == 0 {
        if l == 0 {
            start as int
        } else {
            0
        }
    } else {
        let d = items[k - 1].depth;
        if d == l {
            next_at(items, start, (k - 1) as nat, l) + 1
        } else if d < l {
            0
        } else {
            next_at(items, start, (k - 1) as nat, l)
        }
    }
}

/// A list as markdown gives it: it starts at the top level, and each item is at most one
/// level deeper than the one before it.
pub open spec fn list_shaped(items: Seq<ListItem>) -> bool {
    &&& items.len() > 0 ==> items[0].depth == 0
    &&& forall|k: int| 0 <= k < items.len() - 1 ==> #[trigger] items[k + 1].depth <= items[k].depth + 1
}

/// The index the next item at a depth gets is at most the start and the items so far.
proof fn lemma_next_at_bound(items: Seq<ListItem>, start: usize, k: nat, l: u8)
    requires
        k <= items.len(),
    ensures
        0 <= next_at(items, start, k, l) <= start + k,
    decreases k,
{
    if k > 0 {
        lemma_next_at_bound(items, start, (k - 1) as nat, l);
    }
}

/// What the numbering state holds after a list's first `k` items: for the current depth and
/// every depth above it, the index the next item there gets.
pub open spec fn numbering_state_ok(items: Seq<ListItem>, start: usize, k: nat, st: ListState) -> bool {
    &&& st.current_depth == (if k == 0 { 0 } else { items[k - 1].depth })
    &&& st.next_index == next_at(items, start, k, st.current_depth)
    &&& st.saved_indexes.len() == st.current_depth
    &&& forall|l: int| 0 <= l < st.current_depth ==> #[trigger] st.saved_indexes[l] == next_at(items, start, k, l as u8)
}

proof fn lemma_numbering_state(items: Seq<ListItem>, start: usize, k: nat)
    requires
        k <= items.len(),
        list_shaped(items),
        start + items.len() <= usize::MAX,
    ensures
        numbering_state_ok(items, start, k, list_numbering(items, starting_state(start), k).1),
        list_numbering(items, starting_state(start), k).0.len() == k,
        forall|i: int| 0 <= i < k ==> #[trigger] list_numbering(items, starting_state(start), k).0[i]
            == next_at(items, start, i as nat, items[i].depth),
    decreases k,
{
    if k > 0 {
        let k1 = (k - 1) as nat;
        lemma_numbering_state(items, start, k1);
        let (indexes, st) = list_numbering(items, starting_state(start), k1);
        let depth = items[k1 as int].depth;
        let (index, next) = list_step(st, depth);
        if k1 > 0 {
            assert(items[k1 - 1 + 1].depth <= items[k1 - 1].depth + 1);
        }
        lemma_next_at_bound(items, start, k1, depth);
        assert(index == next_at(items, start, k1, depth)) by {
            if depth > st.current_depth {
                assert(depth == st.current_depth + 1);
            } else if depth < st.current_depth {
                assert(st.saved_indexes[depth as int] == next_at(items, start, k1, depth));
            }
        }
        assert forall|l: int| 0 <= l < next.current_depth implies #[trigger] next.saved_indexes[l]
            == next_at(items, start, k, l as u8) by {
            if depth > st.current_depth && l == st.current_depth {
                assert(next.saved_indexes[l] == st.next_index);
            } else {
                assert(next.saved_indexes[l] == st.saved_indexes[l]);
            }
        }
        assert(next.next_index == next_at(items, start, k, depth));
        let all = list_numbering(items, starting_state(start), k).0;
        assert forall|i: int| 0 <= i < k implies #[trigger] all[i] == next_at(
            items,
            start,
            i as nat,
            items[i].depth,
        ) by {
            if i < k1 {
                assert(all[i] == indexes[i]);
            }
        }
    }
}

/// The index of every item of a list shaped as markdown gives it: counting from `start` at the
/// top level and from 0 below it, the number of items before it at its depth since the last
/// item shallower than it.
pub proof fn lemma_list_indexes(items: Seq<ListItem>, start: usize, i: int)
    requires
        list_shaped(items),
        start + items.len() <= usize::MAX,
        0 <= i < items.len(),
    ensures
        list_numbering(items, starting_state(start), items.len()).0[i] == next_at(
            items,
            start,
            i as nat,
            items[i].depth,
        ),
{
    lemma_numbering_state(items, start, items.len());
}

/// Every item of a list with its index, in order, as the iterator numbers them one after the
/// other; for a list shaped as markdown gives it, each index is the one `next_at` counts.
pub fn indexed_items(items: Vec<ListItem>, start: usize) -> (r: Vec<IndexedListItem>)
    requires
        start + items@.len() <= usize::MAX,
    ensures
        r@.len() == items@.len(),
        forall|i: int| 0 <= i < items@.len() ==> (#[trigger] r@[i]).item == items@[i],
        forall|i: int|
            0 <= i < items@.len() ==> (#[trigger] r@[i]).index == list_numbering(
                items@,
                starting_state(start),
                items@.len(),
            ).0[i],
        list_shaped(items@) ==> forall|i: int|
            0 <= i < items@.len() ==> (#[trigger] r@[i]).index == next_at(items@, start, i as nat, items@[i].depth),
{
    let ghost all = items@;
    let n = items.len();
    let mut it = ListIterator::new(items, start);
    let mut out: Vec<IndexedListItem> = Vec::new();
    let mut i: usize = 0;
    while i < n
        invariant
            n == all.len(),
            i <= n,
            out@.len() == i,
            it.wf(),
            it.remaining@.len() == n - i,
            forall|j: int| 0 <= j < n - i ==> it.remaining@[j] == all[n - 1 - j],
            it.state() == list_numbering(all, starting_state(start), i as nat).1,
            forall|k: int| 0 <= k < i ==> (#[trigger] out@[k]).item == all[k],
            forall|k: int| 0 <= k < i ==> (#[trigger] out@[k]).index == list_numbering(all, starting_state(start), i as nat).0[k],
        decreases n - i,
    {
        let ghost before = it.remaining@;
        let ghost prev = list_numbering(all, starting_state(start), i as nat);
        let next = it.next();
        assert(before.last() == all[i as int]);
        match next {
            Some(indexed) => {
                proof {
                    lemma_numbering_len(all, starting_state(start), i as nat);
                    assert(list_numbering(all, starting_state(start), (i + 1) as nat) == (
                        prev.0.push(indexed.index),
                        it.state(),
                    ));
                }
                let ghost old_out = out@;
                out.push(indexed);
                proof {
                    assert forall|k: int| 0 <= k < i + 1 implies (#[trigger] out@[k]).index == list_numbering(
                        all,
                        starting_state(start),
                        (i + 1) as nat,
                    ).0[k] by {
                        if k < i {
                            assert(out@[k] == old_out[k]);
                            assert(prev.0.push(indexed.index)[k] == prev.0[k]);
                        }
                    }
                    assert forall|k: int| 0 <= k < i + 1 implies (#[trigger] out@[k]).item == all[k] by {
                        if k < i {
                            assert(out@[k] == old_out[k]);
                        }
                    }
                    assert forall|j: int| 0 <= j < n - (i + 1) implies it.remaining@[j] == all[n - 1 - j] by {
                        assert(it.remaining@[j] == before[j]);
                    }
                }
            },
            None => {},
        }
        i += 1;
    }
    proof {
        if list_shaped(all) {
            assert forall|k: int| 0 <= k < all.len() implies (#[trigger] out@[k]).index == next_at(
                all,
                start,
                k as nat,
                all[k].depth,
            ) by {
                lemma_list_indexes(all, start, k);
            }
        }
    }
    out
}

} // verus!
