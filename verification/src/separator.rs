//! A separator line: dashes across the screen, with an optional heading in the middle.
use crate::diff::line_contents;
use crate::operation::RenderOperation;
use crate::style::TextStyle;
use crate::text::{cap_usize, chunks_width, Text, WeightedLine};
use crate::text_util::repeat_char;
use crate::theme::{Alignment, Margin};
use vstd::prelude::*;

verus! {

/// `n` dashes.
pub open spec fn dashes(n: nat) -> Seq<char> {
    Seq::new(n, |_i: int| '—')
}

/// The pieces of some texts, as plain values.
pub open spec fn texts_view(texts: Seq<Text>) -> Seq<(Seq<char>, TextStyle)> {
    texts.map_values(|t: Text| (t.content@, t.style))
}

/// The pieces of a separator on a screen of `columns` columns: dashes all across without a
/// heading; with one, the heading in the middle of the dashes, the extra dash on the right.
pub open spec fn separator_pieces(heading: Seq<Text>, columns: u16) -> Seq<(Seq<char>, TextStyle)> {
    let width = cap_usize(chunks_width(heading));
    if width == 0 {
        seq![(dashes(columns as nat), TextStyle::plain())]
    } else {
        let free: nat = if columns >= width {
            (columns - width) as nat
        } else {
            0
        };
        seq![(dashes(free / 2), TextStyle::plain())] + texts_view(heading) + seq![
            (dashes(free / 2 + free % 2), TextStyle::plain()),
        ]
    }
}

/// A copy of some texts.
pub(crate) fn copy_texts(texts: &Vec<Text>) -> (v: Vec<Text>)
    ensures
        v@ == texts@,
{
    let mut v: Vec<Text> = Vec::new();
    let mut i: usize = 0;
    while i < texts.len()
        invariant
            i <= texts@.len(),
            v@ == texts@.take(i as int),
        decreases texts@.len() - i,
    {
        let t = &texts[i];
        v.push(Text { content: t.content.clone(), style: t.style });
        proof {
            assert(v@ =~= texts@.take(i + 1));
        }
        i = i + 1;
    }
    proof {
        assert(texts@.take(texts@.len() as int) =~= texts@);
    }
    v
}

/// The operation that renders a separator with a heading on a screen of `columns` columns.
pub fn separator_operations(heading: &Vec<Text>, columns: u16) -> (ops: Vec<RenderOperation>)
    ensures
        ops@.len() == 1,
        ops@[0] matches RenderOperation::RenderText { line, alignment } && line_contents(line)
            == separator_pieces(heading@, columns) && alignment == (Alignment::Left {
            margin: Margin::Fixed(0),
        }),
{
    let measured = WeightedLine { chunks: copy_texts(heading) };
    let width = measured.width();
    let mut chunks: Vec<Text> = Vec::new();
    if width == 0 {
        chunks.push(Text { content: repeat_char('—', columns as usize), style: TextStyle::default() });
    } else {
        let free = (columns as usize).saturating_sub(width);
        chunks.push(Text { content: repeat_char('—', free / 2), style: TextStyle::default() });
        let mut middle = copy_texts(heading);
        chunks.append(&mut middle);
        chunks.push(
            Text { content: repeat_char('—', free / 2 + free % 2), style: TextStyle::default() },
        );
    }
    let line = WeightedLine { chunks };
    proof {
        assert(line_contents(line) =~= separator_pieces(heading@, columns));
    }
    let mut ops: Vec<RenderOperation> = Vec::new();
    ops.push(RenderOperation::RenderText { line, alignment: Alignment::default() });
    ops
}

} // verus!
