//! The lines of a code snippet, padded and numbered.
use crate::text::{display_width, str_display_width};
use crate::text_util::{
    decimal, lines_of, nth_line, repeat_char, str_chars, string_from_chars, string_push,
    usize_to_string,
};
use crate::theme::PaddingRect;
use vstd::prelude::*;

verus! {

/// `n` spaces.
pub open spec fn blank(n: nat) -> Seq<char> {
    Seq::new(n, |_i: int| ' ')
}

/// A number right aligned in `pad` columns.
pub open spec fn pad_right_spec(number: nat, pad: nat) -> Seq<char> {
    blank((pad - decimal(number).len()) as nat) + decimal(number)
}

/// Right aligns a number in `pad` columns.
pub fn pad_right(number: usize, pad: usize) -> (s: String)
    requires
        number >= 1,
        decimal(number as nat).len() <= pad,
    ensures
        s@ == pad_right_spec(number as nat, pad as nat),
{
    let digits = usize_to_string(number);
    let digit_chars = str_chars(digits.as_str());
    let padding = pad - digit_chars.len();
    let mut output = repeat_char(' ', padding);
    let mut i: usize = 0;
    while i < digit_chars.len()
        invariant
            i <= digit_chars@.len(),
            digit_chars@ == decimal(number as nat),
            output@ == blank(padding as nat) + digit_chars@.take(i as int),
        decreases digit_chars@.len() - i,
    {
        string_push(&mut output, digit_chars[i]);
        i += 1;
        assert(output@ =~= blank(padding as nat) + digit_chars@.take(i as int));
    }
    assert(digit_chars@.take(digit_chars@.len() as int) =~= digit_chars@);
    output
}

/// Pads numbers up to a maximum so they all take the same width.
#[derive(Clone, Copy, Debug)]
pub struct NumberPadder {
    pub width: usize,
}

impl NumberPadder {
    /// A padder for numbers up to `max`.
    pub fn new(max: usize) -> (p: Self)
        ensures
            p.width == decimal(max as nat).len(),
    {
        let digits = usize_to_string(max);
        NumberPadder { width: str_chars(digits.as_str()).len() }
    }

    /// Right aligns a number.
    pub fn pad_right(&self, number: usize) -> (s: String)
        requires
            number >= 1,
            decimal(number as nat).len() <= self.width,
        ensures
            s@ == pad_right_spec(number as nat, self.width as nat),
    {
        pad_right(number, self.width)
    }
}

/// A code snippet.
#[derive(Clone, Debug)]
pub struct Snippet {
    pub contents: String,
    pub line_numbers: bool,
}

/// A line of code with its prefix and suffix.
#[derive(Clone, Debug)]
pub struct CodeLine {
    pub prefix: String,
    pub code: String,
    pub suffix: String,
    pub line_number: Option<u16>,
}

/// What a prepared line holds: prefix, code, suffix and line number.
pub struct CodeLineView {
    pub prefix: Seq<char>,
    pub code: Seq<char>,
    pub suffix: Seq<char>,
    pub line_number: Option<u16>,
}

impl CodeLine {
    /// What this line holds.
    pub open spec fn view_parts(self) -> CodeLineView {
        CodeLineView { prefix: self.prefix@, code: self.code@, suffix: self.suffix@, line_number: self.line_number }
    }

    /// An empty line.
    pub fn empty() -> (l: Self)
        ensures
            l.view_parts() == empty_line_view(),
    {
        let mut code = String::new();
        string_push(&mut code, '\n');
        CodeLine { prefix: String::new(), code, suffix: String::new(), line_number: None }
    }

    /// The number of columns this line takes, capped at `usize::MAX`.
    pub fn width(&self) -> (w: usize)
        ensures
            w as int == if str_display_width(self.prefix@) as int + str_display_width(self.code@) as int
                + str_display_width(self.suffix@) as int > usize::MAX as int {
                usize::MAX as int
            } else {
                str_display_width(self.prefix@) as int + str_display_width(self.code@) as int
                    + str_display_width(self.suffix@) as int
            },
    {
        let a = display_width(self.prefix.as_str());
        let b = display_width(self.code.as_str());
        let c = display_width(self.suffix.as_str());
        match a.checked_add(b) {
            Some(ab) => match ab.checked_add(c) {
                Some(abc) => abc,
                None => usize::MAX,
            },
            None => usize::MAX,
        }
    }
}

/// An empty line: no prefix, a line feed, no suffix, no number.
pub open spec fn empty_line_view() -> CodeLineView {
    CodeLineView { prefix: Seq::empty(), code: seq!['\n'], suffix: Seq::empty(), line_number: None }
}

/// The prepared line for the `index`-th line of a snippet.
pub open spec fn code_line_spec(
    line: Seq<char>,
    index: nat,
    horizontal_padding: nat,
    line_numbers: bool,
    number_width: nat,
) -> CodeLineView {
    let prefix = if line_numbers {
        blank(horizontal_padding) + pad_right_spec(index + 1, number_width) + seq![' ']
    } else {
        blank(horizontal_padding)
    };
    CodeLineView {
        prefix,
        code: line.push('\n'),
        suffix: blank(horizontal_padding),
        line_number: Some((index + 1) as u16),
    }
}

/// Prepares the lines of code snippets according to a theme's padding.
#[derive(Clone, Copy, Debug)]
pub struct CodePreparer {
    pub padding: PaddingRect,
}

/// The padding, or 0 when absent.
pub open spec fn padding_or_zero(p: Option<u8>) -> nat {
    match p {
        Some(v) => v as nat,
        None => 0,
    }
}

impl CodePreparer {
    /// A preparer that pads as the theme says.
    pub fn new(padding: PaddingRect) -> (p: Self)
        ensures
            p.padding == padding,
    {
        CodePreparer { padding }
    }

    /// The lines of a snippet: an empty line above and below when there's vertical padding,
    /// and each line of code between horizontal padding, numbered if asked to.
    pub fn prepare(&self, code: &Snippet) -> (lines: Vec<CodeLine>)
        requires
            lines_of(code.contents@).len() < u16::MAX,
        ensures
            ({
                let source = lines_of(code.contents@);
                let extra: int = if padding_or_zero(self.padding.vertical) > 0 {
                    1
                } else {
                    0
                };
                &&& lines@.len() == source.len() + 2 * extra
                &&& extra == 1 ==> lines@[0].view_parts() == empty_line_view()
                    && lines@[lines@.len() - 1].view_parts() == empty_line_view()
                &&& forall|i: int|
                    0 <= i < source.len() ==> (#[trigger] lines@[i + extra]).view_parts()
                        == code_line_spec(
                        source[i],
                        i as nat,
                        padding_or_zero(self.padding.horizontal),
                        code.line_numbers,
                        decimal(source.len()).len(),
                    )
            }),
    {
        let mut lines: Vec<CodeLine> = Vec::new();
        let horizontal_padding = match self.padding.horizontal {
            Some(v) => v,
            None => 0,
        };
        let vertical_padding = match self.padding.vertical {
            Some(v) => v,
            None => 0,
        };
        if vertical_padding > 0 {
            lines.push(CodeLine::empty());
        }
        let ghost start = lines@.len();
        let ghost before = lines@;
        self.push_lines(code, horizontal_padding, &mut lines);
        let ghost middle = lines@;
        if vertical_padding > 0 {
            lines.push(CodeLine::empty());
        }
        proof {
            let source = lines_of(code.contents@);
            let extra: int = if vertical_padding > 0 { 1 } else { 0 };
            assert(start == extra);
            assert forall|i: int| 0 <= i < source.len() implies (#[trigger] lines@[i + extra]).view_parts()
                == code_line_spec(
                    source[i],
                    i as nat,
                    padding_or_zero(self.padding.horizontal),
                    code.line_numbers,
                    decimal(source.len()).len(),
                ) by {
                assert(lines@[i + extra] == middle[start + i]);
            }
            if extra == 1 {
                assert(lines@[0] == before[0]);
            }
        }
        lines
    }

    /// Appends the lines of a snippet.
    fn push_lines(&self, code: &Snippet, horizontal_padding: u8, lines: &mut Vec<CodeLine>)
        requires
            lines_of(code.contents@).len() < u16::MAX,
        ensures
            ({
                let source = lines_of(code.contents@);
                let n = old(lines)@.len();
                &&& final(lines)@.len() == n + source.len()
                &&& forall|i: int| 0 <= i < n ==> #[trigger] final(lines)@[i] == old(lines)@[i]
                &&& forall|i: int|
                    0 <= i < source.len() ==> (#[trigger] final(lines)@[n + i]).view_parts()
                        == code_line_spec(
                        source[i],
                        i as nat,
                        horizontal_padding as nat,
                        code.line_numbers,
                        decimal(source.len()).len(),
                    )
            }),
    {
        let contents = str_chars(code.contents.as_str());
        let mut count: usize = 0;
        // Count the lines.
        loop
            invariant
                count <= lines_of(contents@).len(),
                lines_of(contents@).len() < u16::MAX,
                contents@ == code.contents@,
            ensures
                count == lines_of(contents@).len(),
                contents@ == code.contents@,
            decreases lines_of(contents@).len() - count,
        {
            match nth_line(contents.as_slice(), count) {
                Some(_) => {
                    count += 1;
                },
                None => {
                    break ;
                },
            }
        }
        let ghost source = lines_of(code.contents@);
        assert(count == source.len());
        let padder = NumberPadder::new(count);
        let padding = repeat_char(' ', horizontal_padding as usize);
        let padding_chars = str_chars(padding.as_str());
        let ghost n = lines@.len();
        let mut index: usize = 0;
        while index < count
            invariant
                count == source.len(),
                source == lines_of(contents@),
                contents@ == code.contents@,
                source.len() < u16::MAX,
                padder.width == decimal(count as nat).len(),
                padding_chars@ == blank(horizontal_padding as nat),
                index <= count,
                n == old(lines)@.len(),
                lines@.len() == n + index,
                forall|i: int| 0 <= i < n ==> #[trigger] lines@[i] == old(lines)@[i],
                forall|i: int|
                    0 <= i < index ==> (#[trigger] lines@[n + i]).view_parts() == code_line_spec(
                        source[i],
                        i as nat,
                        horizontal_padding as nat,
                        code.line_numbers,
                        decimal(source.len()).len(),
                    ),
            decreases count - index,
        {
            let line = match nth_line(contents.as_slice(), index) {
                Some(l) => l,
                None => Vec::new(),
            };
            let mut prefix_chars: Vec<char> = Vec::new();
            let mut k: usize = 0;
            while k < padding_chars.len()
                invariant
                    k <= padding_chars@.len(),
                    prefix_chars@ == padding_chars@.take(k as int),
                decreases padding_chars@.len() - k,
            {
                prefix_chars.push(padding_chars[k]);
                k += 1;
                assert(prefix_chars@ =~= padding_chars@.take(k as int));
            }
            assert(padding_chars@.take(padding_chars@.len() as int) =~= padding_chars@);
            if code.line_numbers {
                proof {
                    crate::text_util::lemma_decimal_monotone((index + 1) as nat, count as nat);
                }
                let number = padder.pad_right(index + 1);
                let number_chars = str_chars(number.as_str());
                let ghost before = prefix_chars@;
                let mut k: usize = 0;
                while k < number_chars.len()
                    invariant
                        k <= number_chars@.len(),
                        prefix_chars@ == before + number_chars@.take(k as int),
                    decreases number_chars@.len() - k,
                {
                    prefix_chars.push(number_chars[k]);
                    k += 1;
                    assert(prefix_chars@ =~= before + number_chars@.take(k as int));
                }
                assert(number_chars@.take(number_chars@.len() as int) =~= number_chars@);
                prefix_chars.push(' ');
            }
            let mut code_chars = line;
            code_chars.push('\n');
            let code_line = CodeLine {
                prefix: string_from_chars(prefix_chars.as_slice()),
                code: string_from_chars(code_chars.as_slice()),
                suffix: string_from_chars(padding_chars.as_slice()),
                line_number: Some(index as u16 + 1),
            };
            proof {
                assert(code_line.prefix@ =~= code_line_spec(
                    source[index as int],
                    index as nat,
                    horizontal_padding as nat,
                    code.line_numbers,
                    decimal(source.len()).len(),
                ).prefix);
            }
            lines.push(code_line);
            index += 1;
        }
    }
}

} // verus!
