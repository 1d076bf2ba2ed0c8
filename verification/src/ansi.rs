//! Styled text out of ANSI escape codes: the styles that select graphic rendition codes set, and
//! the pieces of text that a line of output holds.
use crate::style::{
    eight_bit_color, Color, Colors, TextStyle, BOLD_FLAG, ITALICS_FLAG, STRIKETHROUGH_FLAG,
    UNDERLINED_FLAG,
};
use crate::text::Text;
use crate::text_util::string_push;
use vstd::prelude::*;

verus! {

/// The parameters of a control sequence, as plain values: each with its subparameters.
pub open spec fn params_view(params: Seq<Vec<u16>>) -> Seq<Seq<u16>> {
    params.map_values(|p: Vec<u16>| p@)
}

/// A style with a format bit added.
pub open spec fn with_flag(style: TextStyle, flag: u8) -> TextStyle {
    TextStyle { flags: style.flags | flag, ..style }
}

/// A style with a foreground color.
pub open spec fn with_foreground(style: TextStyle, color: Color) -> TextStyle {
    TextStyle { colors: Colors { foreground: Some(color), ..style.colors }, ..style }
}

/// A style with a background color.
pub open spec fn with_background(style: TextStyle, color: Color) -> TextStyle {
    TextStyle { colors: Colors { background: Some(color), ..style.colors }, ..style }
}

/// The color of an index into the 8 bit palette, indexes past 255 taken as 255.
pub open spec fn palette_color(index: u16) -> Option<Color> {
    eight_bit_color(if index > 255 { 255u8 } else { index as u8 })
}

/// The color that extended color parameters give, and how many parameters they take: `2` then
/// red, green and blue, each at most 255, or `5` then an index into the palette. Missing or
/// empty parameters give no color, having taken those read so far.
pub open spec fn extended_color(params: Seq<Seq<u16>>) -> (Option<Color>, int) {
    if params.len() == 0 {
        (None, 0)
    } else if params[0] == seq![2u16] {
        if params.len() < 2 {
            (None, 1)
        } else if params[1].len() == 0 {
            (None, 2)
        } else if params.len() < 3 {
            (None, 2)
        } else if params[2].len() == 0 {
            (None, 3)
        } else if params.len() < 4 {
            (None, 3)
        } else if params[3].len() == 0 {
            (None, 4)
        } else {
            let r = params[1][0];
            let g = params[2][0];
            let b = params[3][0];
            if r <= 255 && g <= 255 && b <= 255 {
                (Some(Color::Rgb { r: r as u8, g: g as u8, b: b as u8 }), 4)
            } else {
                (None, 4)
            }
        }
    } else if params[0] == seq![5u16] {
        if params.len() < 2 {
            (None, 1)
        } else if params[1].len() == 0 {
            (None, 2)
        } else {
            (palette_color(params[1][0]), 2)
        }
    } else {
        (None, 1)
    }
}

/// What a single code does to a style: 0 resets it; 1, 3, 4 and 9 add bold, italics,
/// underline and strikethrough; 39 and 49 drop the colors; 30 to 37 and 40 to 47 set the
/// foreground and background to a standard color; anything else leaves it.
pub open spec fn code_style(style: TextStyle, code: u16) -> TextStyle {
    if code == 0 {
        TextStyle::plain()
    } else if code == 1 {
        with_flag(style, BOLD_FLAG)
    } else if code == 3 {
        with_flag(style, ITALICS_FLAG)
    } else if code == 4 {
        with_flag(style, UNDERLINED_FLAG)
    } else if code == 9 {
        with_flag(style, STRIKETHROUGH_FLAG)
    } else if code == 39 {
        TextStyle { colors: Colors { foreground: None, ..style.colors }, ..style }
    } else if code == 49 {
        TextStyle { colors: Colors { background: None, ..style.colors }, ..style }
    } else if 30 <= code <= 37 {
        match palette_color((code - 30) as u16) {
            Some(c) => with_foreground(style, c),
            None => style,
        }
    } else if 40 <= code <= 47 {
        match palette_color((code - 40) as u16) {
            Some(c) => with_background(style, c),
            None => style,
        }
    } else {
        style
    }
}

/// The standard color codes: 30 to 37 set the foreground, and 40 to 47 the background, to the
/// color at the code's offset from 30 or 40 in the 8 bit palette, each one of its first eight
/// colors; the other color and the format stay as they were.
pub proof fn lemma_standard_color_codes(style: TextStyle, code: u16)
    ensures
        30 <= code <= 37 ==> {
            let s = code_style(style, code);
            &&& eight_bit_color((code - 30) as u8) is Some
            &&& s.colors.foreground == eight_bit_color((code - 30) as u8)
            &&& s.colors.background == style.colors.background
            &&& s.flags == style.flags
            &&& s.size == style.size
        },
        40 <= code <= 47 ==> {
            let s = code_style(style, code);
            &&& eight_bit_color((code - 40) as u8) is Some
            &&& s.colors.background == eight_bit_color((code - 40) as u8)
            &&& s.colors.foreground == style.colors.foreground
            &&& s.flags == style.flags
            &&& s.size == style.size
        },
{
}

/// The other codes: 0 resets to a plain style; 1, 3, 4 and 9 add bold, italics, underline and
/// strikethrough and keep the colors; 39 and 49 drop the foreground and the background and
/// keep the rest; any code that names no effect leaves the style as it was. A line with one
/// code is styled by that code.
pub proof fn lemma_format_codes(style: TextStyle, code: u16)
    ensures
        code == 0 ==> code_style(style, code) == TextStyle::plain(),
        code == 1 ==> code_style(style, code).flags == style.flags | BOLD_FLAG
            && code_style(style, code).colors == style.colors,
        code == 3 ==> code_style(style, code).flags == style.flags | ITALICS_FLAG
            && code_style(style, code).colors == style.colors,
        code == 4 ==> code_style(style, code).flags == style.flags | UNDERLINED_FLAG
            && code_style(style, code).colors == style.colors,
        code == 9 ==> code_style(style, code).flags == style.flags | STRIKETHROUGH_FLAG
            && code_style(style, code).colors == style.colors,
        code == 39 ==> code_style(style, code).colors.foreground is None
            && code_style(style, code).colors.background == style.colors.background
            && code_style(style, code).flags == style.flags,
        code == 49 ==> code_style(style, code).colors.background is None
            && code_style(style, code).colors.foreground == style.colors.foreground
            && code_style(style, code).flags == style.flags,
        !(code == 0 || code == 1 || code == 3 || code == 4 || code == 9 || code == 39 || code == 49
            || 30 <= code <= 37 || 40 <= code <= 47) ==> code_style(style, code) == style,
        code != 38 && code != 48 ==> sgr_style(style, seq![seq![code]]) == code_style(style, code),
{
    let params = seq![seq![code]];
    assert(params[0] =~= seq![code]);
    assert(params[0].len() == 1 && params[0][0] == code);
    assert(params.drop_first() =~= Seq::<Seq<u16>>::empty());
    assert(sgr_style(code_style(style, code), Seq::<Seq<u16>>::empty()) == code_style(style, code));
}

/// The style that select graphic rendition parameters leave: each code in turn, 38 and 48
/// reading an extended foreground or background color; a parameter that is not a single
/// code ends them.
pub open spec fn sgr_style(style: TextStyle, params: Seq<Seq<u16>>) -> TextStyle
    decreases params.len(),
{
    if params.len() == 0 || params[0].len() != 1 {
        style
    } else {
        let code = params[0][0];
        let rest = params.drop_first();
        if code == 38 || code == 48 {
            let (color, used) = extended_color(rest);
            let next = match color {
                Some(c) => if code == 38 {
                    with_foreground(style, c)
                } else {
                    with_background(style, c)
                },
                None => style,
            };
            if 0 <= used <= rest.len() {
                sgr_style(next, rest.skip(used))
            } else {
                next
            }
        } else {
            sgr_style(code_style(style, code), rest)
        }
    }
}

/// A reset code forgets the style it starts from: what follows it reads as from a plain style.
pub proof fn lemma_reset_forgets_style(a: TextStyle, b: TextStyle, rest: Seq<Seq<u16>>)
    ensures
        sgr_style(a, seq![seq![0u16]] + rest) == sgr_style(b, seq![seq![0u16]] + rest),
        sgr_style(a, seq![seq![0u16]] + rest) == sgr_style(TextStyle::plain(), rest),
{
    let all = seq![seq![0u16]] + rest;
    assert(all[0] =~= seq![0u16]);
    assert(all.drop_first() =~= rest);
}

/// The color that extended color parameters from `at` give, and how many they take.
fn read_extended_color(params: &Vec<Vec<u16>>, at: usize) -> (r: (Option<Color>, usize))
    requires
        at <= params@.len(),
    ensures
        (r.0, r.1 as int) == extended_color(params_view(params@).skip(at as int)),
        r.1 <= params@.len() - at,
{
    let ghost v = params_view(params@).skip(at as int);
    let n = params.len();
    if at == n {
        return (None, 0);
    }
    assert(v[0] == params@[at as int]@);
    let first = &params[at];
    let kind: u16 = if first.len() == 1 {
        first[0]
    } else {
        0
    };
    if first.len() == 1 && kind == 2 {
        assert(v[0] =~= seq![2u16]);
        if n - at < 2 {
            return (None, 1);
        }
        assert(v[1] == params@[at + 1]@);
        if params[at + 1].len() == 0 {
            return (None, 2);
        }
        if n - at < 3 {
            return (None, 2);
        }
        assert(v[2] == params@[at + 2]@);
        if params[at + 2].len() == 0 {
            return (None, 3);
        }
        if n - at < 4 {
            return (None, 3);
        }
        assert(v[3] == params@[at + 3]@);
        if params[at + 3].len() == 0 {
            return (None, 4);
        }
        let r = params[at + 1][0];
        let g = params[at + 2][0];
        let b = params[at + 3][0];
        if r <= 255 && g <= 255 && b <= 255 {
            (Some(Color::Rgb { r: r as u8, g: g as u8, b: b as u8 }), 4)
        } else {
            (None, 4)
        }
    } else if first.len() == 1 && kind == 5 {
        assert(v[0] =~= seq![5u16]);
        if n - at < 2 {
            return (None, 1);
        }
        assert(v[1] == params@[at + 1]@);
        if params[at + 1].len() == 0 {
            return (None, 2);
        }
        let index = params[at + 1][0];
        let capped: u8 = if index > 255 {
            255
        } else {
            index as u8
        };
        (Color::from_8bit(capped), 2)
    } else {
        proof {
            if v[0] == seq![2u16] {
                assert(v[0][0] == 2 && v[0].len() == 1);
            }
            if v[0] == seq![5u16] {
                assert(v[0][0] == 5 && v[0].len() == 1);
            }
        }
        (None, 1)
    }
}

/// What a single code does to a style.
fn apply_code(style: TextStyle, code: u16) -> (s: TextStyle)
    ensures
        s == code_style(style, code),
{
    if code == 0 {
        TextStyle::default()
    } else if code == 1 {
        style.bold()
    } else if code == 3 {
        style.italics()
    } else if code == 4 {
        style.underlined()
    } else if code == 9 {
        style.strikethrough()
    } else if code == 39 {
        TextStyle { colors: Colors { foreground: None, ..style.colors }, ..style }
    } else if code == 49 {
        TextStyle { colors: Colors { background: None, ..style.colors }, ..style }
    } else if 30 <= code && code <= 37 {
        match Color::from_8bit((code - 30) as u8) {
            Some(c) => style.fg_color(c),
            None => style,
        }
    } else if 40 <= code && code <= 47 {
        match Color::from_8bit((code - 40) as u8) {
            Some(c) => style.bg_color(c),
            None => style,
        }
    } else {
        style
    }
}

/// The style that select graphic rendition parameters leave, from a starting style.
pub fn parse_sgr(starting_style: TextStyle, params: &Vec<Vec<u16>>) -> (s: TextStyle)
    ensures
        s == sgr_style(starting_style, params_view(params@)),
{
    let ghost all = params_view(params@);
    let mut style = starting_style;
    let mut i: usize = 0;
    assert(all.skip(0) =~= all);
    loop
        invariant
            i <= params@.len(),
            all == params_view(params@),
            sgr_style(starting_style, all) == sgr_style(style, all.skip(i as int)),
        decreases params@.len() - i,
    {
        let ghost rest = all.skip(i as int);
        if i == params.len() {
            return style;
        }
        assert(rest[0] == params@[i as int]@);
        if params[i].len() != 1 {
            return style;
        }
        let code = params[i][0];
        assert(rest.drop_first() =~= all.skip(i + 1));
        if code == 38 || code == 48 {
            let (color, used) = read_extended_color(params, i + 1);
            style = match color {
                Some(c) => if code == 38 {
                    style.fg_color(c)
                } else {
                    style.bg_color(c)
                },
                None => style,
            };
            assert(all.skip(i + 1).skip(used as int) =~= all.skip(i + 1 + used));
            i = i + 1 + used;
        } else {
            style = apply_code(style, code);
            i = i + 1;
        }
    }
}

/// What a line of output holds so far: the pieces of text done, the text being printed, and
/// the style in effect.
pub struct AnsiLine {
    pub pieces: Vec<Text>,
    pub pending: Text,
    pub style: TextStyle,
}

/// The pieces of some text, as plain values.
pub open spec fn pieces_view(pieces: Seq<Text>) -> Seq<(Seq<char>, TextStyle)> {
    pieces.map_values(|t: Text| (t.content@, t.style))
}

impl AnsiLine {
    /// The pieces done, the text being printed with its style, and the style in effect.
    pub open spec fn view(&self) -> (Seq<(Seq<char>, TextStyle)>, (Seq<char>, TextStyle), TextStyle) {
        (pieces_view(self.pieces@), (self.pending.content@, self.pending.style), self.style)
    }

    /// A line with nothing printed, in a style; the text printed before any code is plain.
    pub fn new(style: TextStyle) -> (l: Self)
        ensures
            l.view() == (Seq::<(Seq<char>, TextStyle)>::empty(), (Seq::<char>::empty(), TextStyle::plain()), style),
    {
        let l = AnsiLine {
            pieces: Vec::new(),
            pending: Text { content: String::new(), style: TextStyle::default() },
            style,
        };
        assert(pieces_view(l.pieces@) =~= Seq::<(Seq<char>, TextStyle)>::empty());
        l
    }

    /// Keeps the text being printed as a piece, if there is any, and starts a plain one.
    fn save_pending(&mut self)
        ensures
            final(self).style == old(self).style,
            old(self).pending.content@.len() == 0 ==> final(self).view() == old(self).view(),
            old(self).pending.content@.len() > 0 ==> final(self).view() == (
                pieces_view(old(self).pieces@).push(
                    (old(self).pending.content@, old(self).pending.style),
                ),
                (Seq::<char>::empty(), TextStyle::plain()),
                old(self).style,
            ),
    {
        if crate::text_util::str_chars(self.pending.content.as_str()).len() > 0 {
            let mut done = Text { content: String::new(), style: TextStyle::default() };
            std::mem::swap(&mut done, &mut self.pending);
            let ghost before = self.pieces@;
            self.pieces.push(done);
            assert(pieces_view(self.pieces@) =~= pieces_view(before).push((done.content@, done.style)));
        }
    }

    /// Prints a character.
    pub fn print(&mut self, c: char)
        ensures
            final(self).view() == (
                old(self).view().0,
                (old(self).pending.content@.push(c), old(self).pending.style),
                old(self).style,
            ),
    {
        string_push(&mut self.pending.content, c);
    }

    /// Runs a control sequence: select graphic rendition (`m`) keeps the text printed so far
    /// as a piece and sets the style that its parameters leave for what follows; any other
    /// action is ignored.
    pub fn csi_dispatch(&mut self, params: &Vec<Vec<u16>>, action: char)
        ensures
            action != 'm' ==> final(self).view() == old(self).view(),
            action == 'm' ==> ({
                let style = sgr_style(old(self).style, params_view(params@));
                let pieces = if old(self).pending.content@.len() > 0 {
                    pieces_view(old(self).pieces@).push(
                        (old(self).pending.content@, old(self).pending.style),
                    )
                } else {
                    pieces_view(old(self).pieces@)
                };
                let pending_text = if old(self).pending.content@.len() > 0 {
                    Seq::<char>::empty()
                } else {
                    old(self).pending.content@
                };
                final(self).view() == (pieces, (pending_text, style), style)
            }),
    {
        if action == 'm' {
            self.save_pending();
            self.style = parse_sgr(self.style, params);
            self.pending.style = self.style;
        }
    }

    /// The pieces of the line, the text being printed kept as the last one, and the style in
    /// effect at its end.
    pub fn into_parts(self) -> (r: (Vec<Text>, TextStyle))
        ensures
            pieces_view(r.0@) == if self.pending.content@.len() > 0 {
                pieces_view(self.pieces@).push((self.pending.content@, self.pending.style))
            } else {
                pieces_view(self.pieces@)
            },
            r.1 == self.style,
    {
        let mut line = self;
        line.save_pending();
        (line.pieces, line.style)
    }
}

} // verus!
