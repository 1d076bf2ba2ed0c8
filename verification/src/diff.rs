//! Finding where a presentation changed after it was reloaded.
use crate::operation::{BlockLine, RenderOperation};
use crate::presentation::{Presentation, Slide, SlideChunk};
use crate::style::TextStyle;
use crate::text::{Text, WeightedLine};
use crate::text_util::str_eq;
use vstd::prelude::*;

verus! {

/// The place of the first change between two presentations.
#[derive(Clone, Copy, Debug, PartialEq, Eq, Structural)]
pub struct Modification {
    pub slide_index: usize,
    pub chunk_index: usize,
}

/// What a line shows: each piece's text and style.
pub open spec fn line_contents(l: WeightedLine) -> Seq<(Seq<char>, TextStyle)> {
    l.chunks@.map_values(|t: Text| (t.content@, t.style))
}

/// Two block lines are the same when all their parts are.
pub open spec fn same_block_line(a: BlockLine, b: BlockLine) -> bool {
    &&& a.prefix.content@ == b.prefix.content@
    &&& a.prefix.style == b.prefix.style
    &&& a.right_padding_length == b.right_padding_length
    &&& a.repeat_prefix_on_wrap == b.repeat_prefix_on_wrap
    &&& line_contents(a.text) == line_contents(b.text)
    &&& a.block_length == b.block_length
    &&& a.alignment == b.alignment
    &&& a.block_color == b.block_color
}

/// Which kind of operation this is.
pub open spec fn operation_kind(op: RenderOperation) -> int {
    match op {
        RenderOperation::ClearScreen => 0,
        RenderOperation::ApplyMargin(_) => 1,
        RenderOperation::PopMargin => 2,
        RenderOperation::SetColors(_) => 3,
        RenderOperation::JumpToVerticalCenter => 4,
        RenderOperation::JumpToRow { .. } => 5,
        RenderOperation::JumpToBottomRow { .. } => 6,
        RenderOperation::JumpToColumn { .. } => 7,
        RenderOperation::RenderText { .. } => 8,
        RenderOperation::RenderLineBreak => 9,
        RenderOperation::RenderBlockLine(_) => 10,
        RenderOperation::InitColumnLayout { .. } => 11,
        RenderOperation::EnterColumn { .. } => 12,
        RenderOperation::ExitLayout => 13,
    }
}

/// Whether two operations show different content. Operations of different kinds always do;
/// of the same kind, only the text of a line, a block line, a column layout's widths and a
/// column's index count: colors, alignment, margins and jumps do not.
pub open spec fn operation_content_different(a: RenderOperation, b: RenderOperation) -> bool {
    if operation_kind(a) != operation_kind(b) {
        true
    } else {
        match (a, b) {
            (
                RenderOperation::RenderText { line: l1, .. },
                RenderOperation::RenderText { line: l2, .. },
            ) => line_contents(l1) != line_contents(l2),
            (RenderOperation::RenderBlockLine(x), RenderOperation::RenderBlockLine(y)) => {
                !same_block_line(x, y)
            },
            (
                RenderOperation::InitColumnLayout { columns: c1 },
                RenderOperation::InitColumnLayout { columns: c2 },
            ) => c1@ != c2@,
            (
                RenderOperation::EnterColumn { column: c1 },
                RenderOperation::EnterColumn { column: c2 },
            ) => c1 != c2,
            _ => false,
        }
    }
}

/// Whether two lists of operations show different content: one of the pairs at the same
/// place does, or one list is longer.
pub open spec fn operations_content_different(a: Seq<RenderOperation>, b: Seq<RenderOperation>) -> bool {
    ||| exists|i: int|
        0 <= i < a.len() && i < b.len() && #[trigger] operation_content_different(a[i], b[i])
    ||| a.len() != b.len()
}

/// Whether the chunks at index `c` of two slides are both there and show different content.
pub open spec fn chunk_differs(o: Seq<SlideChunk>, u: Seq<SlideChunk>, c: int) -> bool {
    &&& 0 <= c < o.len()
    &&& c < u.len()
    &&& operations_content_different(o[c].operations@, u[c].operations@)
}

/// `c` is the first index at which the chunks differ.
pub open spec fn first_chunk_difference(o: Seq<SlideChunk>, u: Seq<SlideChunk>, c: int) -> bool {
    chunk_differs(o, u, c) && forall|j: int| 0 <= j < c ==> !#[trigger] chunk_differs(o, u, j)
}

/// The chunk at which a slide changed: the first whose content differs; else, when chunks
/// were added, the first new one; else, when chunks were removed, the last one left; else none.
pub open spec fn slide_modification(o: Seq<SlideChunk>, u: Seq<SlideChunk>) -> Option<int> {
    if exists|c: int| chunk_differs(o, u, c) {
        Some(choose|c: int| first_chunk_difference(o, u, c))
    } else if o.len() < u.len() {
        Some(o.len() as int)
    } else if o.len() > u.len() {
        Some(if u.len() == 0 { 0 } else { u.len() - 1 })
    } else {
        None
    }
}

/// Whether the slides at index `s` are both there and the slide changed.
pub open spec fn slide_differs(o: Seq<Slide>, u: Seq<Slide>, s: int) -> bool {
    &&& 0 <= s < o.len()
    &&& s < u.len()
    &&& slide_modification(o[s].chunks@, u[s].chunks@) is Some
}

/// `s` is the first index at which the slides differ.
pub open spec fn first_slide_difference(o: Seq<Slide>, u: Seq<Slide>, s: int) -> bool {
    slide_differs(o, u, s) && forall|j: int| 0 <= j < s ==> !#[trigger] slide_differs(o, u, j)
}

/// The first modification between two presentations: within the first slide that changed;
/// else, when slides were added, the first new slide; else, when slides were removed, the
/// end of the last slide left; else none.
pub open spec fn first_modification(o: Seq<Slide>, u: Seq<Slide>) -> Option<Modification> {
    if exists|s: int| slide_differs(o, u, s) {
        let s = choose|s: int| first_slide_difference(o, u, s);
        Some(
            Modification {
                slide_index: s as usize,
                chunk_index: slide_modification(o[s].chunks@, u[s].chunks@)->0 as usize,
            },
        )
    } else if o.len() == u.len() {
        None
    } else if o.len() < u.len() {
        Some(Modification { slide_index: o.len() as usize, chunk_index: 0 })
    } else {
        Some(
            Modification {
                slide_index: if u.len() == 0 { 0 } else { (u.len() - 1) as usize },
                chunk_index: usize::MAX,
            },
        )
    }
}

/// Whether two lines show the same pieces.
fn same_line(a: &WeightedLine, b: &WeightedLine) -> (r: bool)
    ensures
        r == (line_contents(*a) == line_contents(*b)),
{
    if a.chunks.len() != b.chunks.len() {
        proof {
            assert(line_contents(*a).len() != line_contents(*b).len());
        }
        return false;
    }
    let mut i: usize = 0;
    while i < a.chunks.len()
        invariant
            i <= a.chunks@.len(),
            a.chunks@.len() == b.chunks@.len(),
            forall|j: int| 0 <= j < i ==> line_contents(*a)[j] == line_contents(*b)[j],
        decreases a.chunks@.len() - i,
    {
        let same = str_eq(a.chunks[i].content.as_str(), b.chunks[i].content.as_str())
            && a.chunks[i].style == b.chunks[i].style;
        if !same {
            proof {
                assert(line_contents(*a)[i as int] != line_contents(*b)[i as int]);
            }
            return false;
        }
        i = i + 1;
    }
    proof {
        assert(line_contents(*a) =~= line_contents(*b));
    }
    true
}

/// Whether two column layouts have the same widths.
fn same_widths(a: &Vec<u8>, b: &Vec<u8>) -> (r: bool)
    ensures
        r == (a@ == b@),
{
    if a.len() != b.len() {
        return false;
    }
    let mut i: usize = 0;
    while i < a.len()
        invariant
            i <= a@.len(),
            a@.len() == b@.len(),
            forall|j: int| 0 <= j < i ==> a@[j] == b@[j],
        decreases a@.len() - i,
    {
        if a[i] != b[i] {
            return false;
        }
        i = i + 1;
    }
    proof {
        assert(a@ =~= b@);
    }
    true
}

/// Whether two block lines are the same.
fn same_block(a: &BlockLine, b: &BlockLine) -> (r: bool)
    ensures
        r == same_block_line(*a, *b),
{
    let same_color = match (a.block_color, b.block_color) {
        (None, None) => true,
        (Some(x), Some(y)) => x == y,
        _ => false,
    };
    str_eq(a.prefix.content.as_str(), b.prefix.content.as_str()) && a.prefix.style
        == b.prefix.style && a.right_padding_length == b.right_padding_length
        && a.repeat_prefix_on_wrap == b.repeat_prefix_on_wrap && same_line(&a.text, &b.text)
        && a.block_length == b.block_length && a.alignment == b.alignment && same_color
}

/// Which kind of operation this is.
fn kind_of(op: &RenderOperation) -> (k: u8)
    ensures
        k as int == operation_kind(*op),
{
    match op {
        RenderOperation::ClearScreen => 0,
        RenderOperation::ApplyMargin(_) => 1,
        RenderOperation::PopMargin => 2,
        RenderOperation::SetColors(_) => 3,
        RenderOperation::JumpToVerticalCenter => 4,
        RenderOperation::JumpToRow { .. } => 5,
        RenderOperation::JumpToBottomRow { .. } => 6,
        RenderOperation::JumpToColumn { .. } => 7,
        RenderOperation::RenderText { .. } => 8,
        RenderOperation::RenderLineBreak => 9,
        RenderOperation::RenderBlockLine(_) => 10,
        RenderOperation::InitColumnLayout { .. } => 11,
        RenderOperation::EnterColumn { .. } => 12,
        RenderOperation::ExitLayout => 13,
    }
}

impl RenderOperation {
    /// Whether this operation shows different content than another.
    pub fn is_content_different(&self, other: &Self) -> (r: bool)
        ensures
            r == operation_content_different(*self, *other),
    {
        if kind_of(self) != kind_of(other) {
            return true;
        }
        match (self, other) {
            (
                RenderOperation::RenderText { line: l1, .. },
                RenderOperation::RenderText { line: l2, .. },
            ) => !same_line(l1, l2),
            (RenderOperation::RenderBlockLine(x), RenderOperation::RenderBlockLine(y)) => {
                !same_block(x, y)
            },
            (
                RenderOperation::InitColumnLayout { columns: c1 },
                RenderOperation::InitColumnLayout { columns: c2 },
            ) => !same_widths(c1, c2),
            (
                RenderOperation::EnterColumn { column: c1 },
                RenderOperation::EnterColumn { column: c2 },
            ) => *c1 != *c2,
            _ => false,
        }
    }
}

/// Whether two lists of operations show different content.
pub fn operations_differ(a: &Vec<RenderOperation>, b: &Vec<RenderOperation>) -> (r: bool)
    ensures
        r == operations_content_different(a@, b@),
{
    let mut i: usize = 0;
    while i < a.len() && i < b.len()
        invariant
            i <= a@.len(),
            i <= b@.len(),
            forall|j: int| 0 <= j < i ==> !#[trigger] operation_content_different(a@[j], b@[j]),
        decreases a@.len() - i,
    {
        if a[i].is_content_different(&b[i]) {
            return true;
        }
        i = i + 1;
    }
    a.len() != b.len()
}

impl SlideChunk {
    /// Whether this chunk shows different content than another.
    pub fn is_content_different(&self, other: &Self) -> (r: bool)
        ensures
            r == operations_content_different(self.operations@, other.operations@),
    {
        operations_differ(&self.operations, &other.operations)
    }
}

/// The chunk at which a slide changed, as `slide_modification` says.
fn find_slide_modification(o: &Vec<SlideChunk>, u: &Vec<SlideChunk>) -> (r: Option<usize>)
    ensures
        r matches Some(c) ==> slide_modification(o@, u@) == Some(c as int),
        r is None ==> slide_modification(o@, u@) is None,
{
    let mut c: usize = 0;
    while c < o.len() && c < u.len()
        invariant
            c <= o@.len(),
            c <= u@.len(),
            forall|j: int| 0 <= j < c ==> !#[trigger] chunk_differs(o@, u@, j),
        decreases o@.len() - c,
    {
        if o[c].is_content_different(&u[c]) {
            proof {
                assert(first_chunk_difference(o@, u@, c as int));
                let d = choose|d: int| first_chunk_difference(o@, u@, d);
                if d < c {
                    assert(!chunk_differs(o@, u@, d));
                } else if d > c {
                    assert(!chunk_differs(o@, u@, c as int));
                }
            }
            return Some(c);
        }
        proof {
            assert(!chunk_differs(o@, u@, c as int));
        }
        c = c + 1;
    }
    proof {
        assert forall|d: int| !chunk_differs(o@, u@, d) by {
            if 0 <= d < c {
            }
        }
    }
    if o.len() < u.len() {
        Some(o.len())
    } else if o.len() > u.len() {
        Some(u.len().saturating_sub(1))
    } else {
        None
    }
}

impl Presentation {
    /// The first modification between this presentation and an updated one.
    pub fn find_first_modification(&self, updated: &Presentation) -> (r: Option<Modification>)
        ensures
            r == first_modification(self.slides@, updated.slides@),
    {
        let o = &self.slides;
        let u = &updated.slides;
        let mut s: usize = 0;
        while s < o.len() && s < u.len()
            invariant
                o@ == self.slides@,
                u@ == updated.slides@,
                s <= o@.len(),
                s <= u@.len(),
                forall|j: int| 0 <= j < s ==> !#[trigger] slide_differs(o@, u@, j),
            decreases o@.len() - s,
        {
            let found = find_slide_modification(&o[s].chunks, &u[s].chunks);
            if let Some(c) = found {
                proof {
                    assert(slide_differs(o@, u@, s as int));
                    assert(first_slide_difference(o@, u@, s as int));
                    let d = choose|d: int| first_slide_difference(o@, u@, d);
                    if d < s {
                        assert(!slide_differs(o@, u@, d));
                    } else if d > s {
                        assert(!slide_differs(o@, u@, s as int));
                    }
                }
                return Some(Modification { slide_index: s, chunk_index: c });
            }
            proof {
                assert(!slide_differs(o@, u@, s as int));
            }
            s = s + 1;
        }
        proof {
            assert forall|d: int| !slide_differs(o@, u@, d) by {
                if 0 <= d < s {
                }
            }
        }
        if o.len() == u.len() {
            None
        } else if o.len() < u.len() {
            Some(Modification { slide_index: o.len(), chunk_index: 0 })
        } else {
            Some(Modification { slide_index: u.len().saturating_sub(1), chunk_index: usize::MAX })
        }
    }
}

/// An operation never differs from itself.
pub proof fn lemma_operation_same_as_itself(op: RenderOperation)
    ensures
        !operation_content_different(op, op),
{
}

/// Whether two operations differ does not depend on which one is compared with the other.
pub proof fn lemma_operation_difference_symmetric(a: RenderOperation, b: RenderOperation)
    ensures
        operation_content_different(a, b) == operation_content_different(b, a),
{
}

/// A presentation compared with itself has no modification.
pub proof fn lemma_no_modification_of_itself(slides: Seq<Slide>)
    ensures
        first_modification(slides, slides) is None,
{
    assert forall|s: int| !slide_differs(slides, slides, s) by {
        if 0 <= s < slides.len() {
            let chunks = slides[s].chunks@;
            assert forall|c: int| !chunk_differs(chunks, chunks, c) by {
                if 0 <= c < chunks.len() {
                    let ops = chunks[c].operations@;
                    assert forall|i: int| 0 <= i < ops.len() implies !#[trigger] operation_content_different(ops[i], ops[i]) by {
                        lemma_operation_same_as_itself(ops[i]);
                    }
                }
            }
        }
    }
}

} // verus!
