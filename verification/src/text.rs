//! Styled text and its display width.
use crate::style::TextStyle;
use crate::text_util::{str_chars, string_from_chars};
use unicode_width::UnicodeWidthStr;
use vstd::prelude::*;

verus! {

/// The number of terminal columns that a text takes, as the `unicode-width` crate measures it.
pub uninterp spec fn str_display_width(s: Seq<char>) -> usize;

/// Measures the number of terminal columns that a text takes.
///
/// Calls `UnicodeWidthStr::width` of the `unicode-width` crate; its result is named
/// `str_display_width` of the text. The empty text takes no column.
#[verifier::external_body]
pub(crate) fn display_width(s: &str) -> (w: usize)
    ensures
        w == str_display_width(s@),
        s@.len() == 0 ==> w == 0,
{
    UnicodeWidthStr::width(s)
}

/// A piece of styled text.
#[derive(Clone, Debug)]
pub struct Text {
    pub content: String,
    pub style: TextStyle,
}

/// The number of columns a piece of text takes: its display width times its font size.
pub open spec fn text_width(t: Text) -> nat {
    str_display_width(t.content@) as nat * t.style.size as nat
}

/// The number of columns a sequence of text pieces takes.
pub open spec fn chunks_width(chunks: Seq<Text>) -> nat
    decreases chunks.len(),
{
    if chunks.len() == 0 {
        0
    } else {
        chunks_width(chunks.drop_last()) + text_width(chunks.last())
    }
}

/// `n`, capped at `usize::MAX`.
pub open spec fn cap_usize(n: nat) -> usize {
    if n > usize::MAX as nat {
        usize::MAX
    } else {
        n as usize
    }
}

impl Text {
    /// A piece of text with the given style.
    pub fn new(content: &str, style: TextStyle) -> (t: Self)
        ensures
            t.content@ == content@,
            t.style == style,
    {
        let chars = str_chars(content);
        Text { content: string_from_chars(chars.as_slice()), style }
    }

    /// A piece of text with the plain style.
    pub fn plain(content: &str) -> (t: Self)
        ensures
            t.content@ == content@,
            t.style == TextStyle::plain(),
    {
        Text::new(content, TextStyle::default())
    }

    /// The number of columns this text takes, capped at `usize::MAX`.
    pub fn width(&self) -> (w: usize)
        ensures
            w == cap_usize(text_width(*self)),
    {
        let w = display_width(self.content.as_str());
        let size = self.style.size as usize;
        proof {
            vstd::arithmetic::mul::lemma_mul_nonnegative(w as int, size as int);
        }
        match w.checked_mul(size) {
            Some(v) => v,
            None => usize::MAX,
        }
    }
}

/// A line made of pieces of styled text.
#[derive(Clone, Debug)]
pub struct WeightedLine {
    pub chunks: Vec<Text>,
}

impl WeightedLine {
    /// The font size of a line: that of its first piece, or 1 for an empty line.
    pub open spec fn font_size_spec(self) -> u8 {
        if self.chunks@.len() == 0 {
            1
        } else {
            self.chunks@[0].style.size
        }
    }

    /// A line with a single piece of text.
    pub fn from_text(text: Text) -> (l: Self)
        ensures
            l.chunks@ == seq![text],
    {
        let mut chunks = Vec::new();
        chunks.push(text);
        WeightedLine { chunks }
    }

    /// A line with a single plain piece of text.
    pub fn from_str(content: &str) -> (l: Self)
        ensures
            l.chunks@.len() == 1,
            l.chunks@[0].content@ == content@,
            l.chunks@[0].style == TextStyle::plain(),
    {
        WeightedLine::from_text(Text::plain(content))
    }

    /// The font size of this line.
    pub fn font_size(&self) -> (s: u8)
        ensures
            s == self.font_size_spec(),
    {
        if self.chunks.len() == 0 {
            1
        } else {
            self.chunks[0].style.size
        }
    }

    /// The number of columns this line takes, capped at `usize::MAX`.
    pub fn width(&self) -> (w: usize)
        ensures
            w == cap_usize(chunks_width(self.chunks@)),
    {
        let mut total: usize = 0;
        let mut i: usize = 0;
        while i < self.chunks.len()
            invariant
                i <= self.chunks@.len(),
                total == cap_usize(chunks_width(self.chunks@.take(i as int))),
            decreases self.chunks@.len() - i,
        {
            let w = self.chunks[i].width();
            assert(self.chunks@.take(i + 1).drop_last() == self.chunks@.take(i as int));
            total = match total.checked_add(w) {
                Some(v) => v,
                None => usize::MAX,
            };
            i += 1;
        }
        assert(self.chunks@.take(self.chunks@.len() as int) == self.chunks@);
        total
    }
}

} // verus!
