//! Positions in a markdown source and the context lines that point at an error in it.
use crate::text_util::{
    decimal, lines_of, nth_line, repeat_char, str_chars, string_push, usize_to_string,
};
use vstd::prelude::*;

verus! {

/// A line and column in a source file, both counted from 1.
#[derive(Clone, Copy, Debug, Default, PartialEq, Eq, Structural)]
pub struct LineColumn {
    pub line: usize,
    pub column: usize,
}

/// Where an element starts in a source file.
#[derive(Clone, Copy, Debug, Default, PartialEq, Eq, Structural)]
pub struct SourcePosition {
    pub start: LineColumn,
}

/// `n` spaces.
pub open spec fn spaces(n: nat) -> Seq<char> {
    Seq::new(n, |_i: int| ' ')
}

/// The separator between a line number and a line: " | ".
pub open spec fn bar() -> Seq<char> {
    seq![' ', '|', ' ']
}

/// The three lines that point at an error: an empty gutter line, the source line behind its
/// gutter, and a caret under the column followed by the error.
pub open spec fn error_context_text(
    line: Option<usize>,
    column: Option<usize>,
    source: Seq<char>,
    error: Seq<char>,
) -> Seq<char> {
    let prefix = match line {
        Some(l) => decimal(l as nat) + bar(),
        None => bar(),
    };
    let empty_line = match line {
        Some(l) => spaces(decimal(l as nat).len()) + bar(),
        None => bar(),
    };
    let shown = match line {
        Some(l) => {
            let index = if l >= 1 {
                l - 1
            } else {
                0
            };
            if index < lines_of(source).len() {
                lines_of(source)[index as int]
            } else {
                Seq::empty()
            }
        },
        None => source,
    };
    let col = match column {
        Some(c) => if c >= 1 {
            (c - 1) as nat
        } else {
            0
        },
        None => 0,
    };
    empty_line + seq!['\n'] + prefix + shown + seq!['\n'] + empty_line + spaces(col) + seq![
        '^',
        ' ',
    ] + error
}

/// Builds the lines that point at an error in a source text.
#[derive(Clone, Copy, Debug)]
pub struct ErrorContextBuilder<'a> {
    pub line: Option<usize>,
    pub column: Option<usize>,
    pub source_line: &'a str,
    pub error: &'a str,
}

fn push_chars(out: &mut String, chars: &[char])
    ensures
        final(out)@ == old(out)@ + chars@,
{
    let mut i: usize = 0;
    while i < chars.len()
        invariant
            i <= chars@.len(),
            out@ == old(out)@ + chars@.take(i as int),
        decreases chars@.len() - i,
    {
        string_push(out, chars[i]);
        i += 1;
        assert(old(out)@ + chars@.take(i as int) =~= (old(out)@ + chars@.take((i - 1) as int)).push(
            chars@[i - 1],
        ));
    }
    assert(chars@.take(chars@.len() as int) =~= chars@);
}

fn push_bar(out: &mut String)
    ensures
        final(out)@ == old(out)@ + bar(),
{
    string_push(out, ' ');
    string_push(out, '|');
    string_push(out, ' ');
    assert(final(out)@ =~= old(out)@ + bar());
}

impl<'a> ErrorContextBuilder<'a> {
    /// A builder for an error in the given source text.
    pub fn new(source_line: &'a str, error: &'a str) -> (b: Self)
        ensures
            b.line is None,
            b.column is None,
            b.source_line == source_line,
            b.error == error,
    {
        ErrorContextBuilder { line: None, column: None, source_line, error }
    }

    /// Points at the line and column where an element starts.
    pub fn position(self, position: SourcePosition) -> (b: Self)
        ensures
            b == (ErrorContextBuilder {
                line: Some(position.start.line),
                column: Some(position.start.column),
                ..self
            }),
    {
        ErrorContextBuilder {
            line: Some(position.start.line),
            column: Some(position.start.column),
            ..self
        }
    }

    /// Points at a column.
    pub fn column(self, column: usize) -> (b: Self)
        ensures
            b == (ErrorContextBuilder { column: Some(column), ..self }),
    {
        ErrorContextBuilder { column: Some(column), ..self }
    }

    /// The gutter prefix of the source line, the empty gutter line, and the source line shown.
    pub open spec fn parts(self) -> (Seq<char>, Seq<char>, Seq<char>) {
        let t = error_context_text(self.line, self.column, self.source_line@, self.error@);
        match self.line {
            Some(l) => {
                let index = if l >= 1 {
                    l - 1
                } else {
                    0
                };
                (
                    decimal(l as nat) + bar(),
                    spaces(decimal(l as nat).len()) + bar(),
                    if index < lines_of(self.source_line@).len() {
                        lines_of(self.source_line@)[index as int]
                    } else {
                        Seq::empty()
                    },
                )
            },
            None => (bar(), bar(), self.source_line@),
        }
    }

    fn build_parts(&self) -> (r: (Vec<char>, Vec<char>, Vec<char>))
        ensures
            (r.0@, r.1@, r.2@) == self.parts(),
    {
        let source = str_chars(self.source_line);
        let mut prefix = String::new();
        let mut empty_line = String::new();
        let shown: Vec<char>;
        match self.line {
            Some(line) => {
                let line_number = usize_to_string(line);
                let digits = str_chars(line_number.as_str());
                push_chars(&mut prefix, digits.as_slice());
                push_bar(&mut prefix);
                let padding = repeat_char(' ', digits.len());
                let padding_chars = str_chars(padding.as_str());
                push_chars(&mut empty_line, padding_chars.as_slice());
                push_bar(&mut empty_line);
                let index = line.saturating_sub(1);
                shown = match nth_line(source.as_slice(), index) {
                    Some(l) => l,
                    None => Vec::new(),
                };
                proof {
                    assert(spaces(decimal(line as nat).len()) =~= padding@);
                }
            },
            None => {
                push_bar(&mut prefix);
                push_bar(&mut empty_line);
                shown = source;
            },
        }
        (str_chars(prefix.as_str()), str_chars(empty_line.as_str()), shown)
    }

    /// Builds the text.
    pub fn build(&self) -> (s: String)
        ensures
            s@ == error_context_text(self.line, self.column, self.source_line@, self.error@),
    {
        let (prefix_chars, empty_chars, shown) = self.build_parts();
        let column = match self.column {
            Some(c) => c.saturating_sub(1),
            None => 0,
        };
        let mut output = String::new();
        push_chars(&mut output, empty_chars.as_slice());
        string_push(&mut output, '\n');
        push_chars(&mut output, prefix_chars.as_slice());
        push_chars(&mut output, shown.as_slice());
        string_push(&mut output, '\n');
        push_chars(&mut output, empty_chars.as_slice());
        let indent = repeat_char(' ', column);
        let indent_chars = str_chars(indent.as_str());
        push_chars(&mut output, indent_chars.as_slice());
        string_push(&mut output, '^');
        string_push(&mut output, ' ');
        let error_chars = str_chars(self.error);
        push_chars(&mut output, error_chars.as_slice());
        proof {
            assert(spaces(column as nat) =~= indent@);
            let (p, e, sh) = self.parts();
            assert(output@ =~= e + seq!['\n'] + p + sh + seq!['\n'] + e + spaces(column as nat)
                + seq!['^', ' '] + self.error@);
        }
        output
    }
}

} // verus!
