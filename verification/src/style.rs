//! Text styles and colors.
use crate::text_util::{chars_eq_str, str_chars, string_from_chars};
use hex::FromHexError;
use hex::FromHex;
use vstd::prelude::*;

verus! {

/// `hex::FromHexError`, the error that decoding hex text gives.
#[verifier::external_type_specification]
#[verifier::external_body]
pub struct ExFromHexError(FromHexError);

/// The bit that marks bold text.
pub const BOLD_FLAG: u8 = 1;

/// The bit that marks italic text.
pub const ITALICS_FLAG: u8 = 2;

/// The bit that marks inline code.
pub const CODE_FLAG: u8 = 4;

/// The bit that marks strikethrough text.
pub const STRIKETHROUGH_FLAG: u8 = 8;

/// The bit that marks underlined text.
pub const UNDERLINED_FLAG: u8 = 16;

/// A color.
#[derive(Clone, Copy, Debug, PartialEq, Eq, Structural)]
pub enum Color {
    Black,
    DarkGrey,
    Red,
    DarkRed,
    Green,
    DarkGreen,
    Yellow,
    DarkYellow,
    Blue,
    DarkBlue,
    Magenta,
    DarkMagenta,
    Cyan,
    DarkCyan,
    White,
    Grey,
    Rgb { r: u8, g: u8, b: u8 },
}

/// The value of a hex digit, upper or lower case.
pub open spec fn hex_digit_value(c: char) -> Option<u8> {
    if '0' <= c && c <= '9' {
        Some((c as u8 - '0' as u8) as u8)
    } else if 'a' <= c && c <= 'f' {
        Some((c as u8 - 'a' as u8 + 10) as u8)
    } else if 'A' <= c && c <= 'F' {
        Some((c as u8 - 'A' as u8 + 10) as u8)
    } else {
        None
    }
}

/// The byte that the hex digits at `2 * i` and `2 * i + 1` encode.
pub open spec fn hex_byte_at(s: Seq<char>, i: int) -> u8 {
    (hex_digit_value(s[2 * i]).unwrap() * 16 + hex_digit_value(s[2 * i + 1]).unwrap()) as u8
}

/// The three bytes that six hex digits encode, if the text is exactly that.
pub open spec fn hex_rgb(s: Seq<char>) -> Option<(u8, u8, u8)> {
    if s.len() == 6 && (forall|i: int| 0 <= i < 6 ==> (#[trigger] hex_digit_value(s[i])) is Some) {
        Some((hex_byte_at(s, 0), hex_byte_at(s, 1), hex_byte_at(s, 2)))
    } else {
        None
    }
}

/// The lower case hex digit for a value below 16.
pub open spec fn lower_hex_digit(v: u8) -> char {
    if v < 10 {
        ('0' as u8 + v) as char
    } else {
        ('a' as u8 + v - 10) as char
    }
}

/// The lower case hex text of some bytes: two digits per byte, high nibble first.
pub open spec fn hex_lower(bytes: Seq<u8>) -> Seq<char>
    decreases bytes.len(),
{
    if bytes.len() == 0 {
        Seq::empty()
    } else {
        seq![lower_hex_digit(bytes[0] / 16), lower_hex_digit(bytes[0] % 16)] + hex_lower(
            bytes.drop_first(),
        )
    }
}

/// Decodes six hex digits into three bytes.
///
/// Calls `<[u8; 3] as hex::FromHex>::from_hex`, which succeeds exactly when the text is six
/// hex digits (either case) and then gives the byte of each pair of digits.
#[verifier::external_body]
fn decode_hex_rgb(input: &str) -> (r: Result<[u8; 3], FromHexError>)
    ensures
        r is Ok <==> hex_rgb(input@) is Some,
        r matches Ok(bytes) ==> (bytes@[0], bytes@[1], bytes@[2]) == hex_rgb(input@).unwrap(),
{
    <[u8; 3]>::from_hex(input)
}

/// Encodes three bytes as hex text.
///
/// Calls `hex::encode`, which writes two lower case hex digits per byte, high nibble first.
#[verifier::external_body]
fn encode_hex_rgb(r: u8, g: u8, b: u8) -> (s: String)
    ensures
        s@ == hex_lower(seq![r, g, b]),
{
    hex::encode([r, g, b])
}

/// The color that a name stands for.
pub open spec fn named_color(name: Seq<char>) -> Option<Color> {
    if name == "black"@ {
        Some(Color::Black)
    } else if name == "white"@ {
        Some(Color::White)
    } else if name == "grey"@ {
        Some(Color::Grey)
    } else if name == "dark_grey"@ {
        Some(Color::DarkGrey)
    } else if name == "red"@ {
        Some(Color::Red)
    } else if name == "dark_red"@ {
        Some(Color::DarkRed)
    } else if name == "green"@ {
        Some(Color::Green)
    } else if name == "dark_green"@ {
        Some(Color::DarkGreen)
    } else if name == "blue"@ {
        Some(Color::Blue)
    } else if name == "dark_blue"@ {
        Some(Color::DarkBlue)
    } else if name == "yellow"@ {
        Some(Color::Yellow)
    } else if name == "dark_yellow"@ {
        Some(Color::DarkYellow)
    } else if name == "magenta"@ {
        Some(Color::Magenta)
    } else if name == "dark_magenta"@ {
        Some(Color::DarkMagenta)
    } else if name == "cyan"@ {
        Some(Color::Cyan)
    } else if name == "dark_cyan"@ {
        Some(Color::DarkCyan)
    } else {
        None
    }
}

/// The text that a color parses from and prints as.
pub open spec fn color_text(color: Color) -> Seq<char> {
    match color {
        Color::Rgb { r, g, b } => hex_lower(seq![r, g, b]),
        Color::Black => "black"@,
        Color::White => "white"@,
        Color::Grey => "grey"@,
        Color::DarkGrey => "dark_grey"@,
        Color::Red => "red"@,
        Color::DarkRed => "dark_red"@,
        Color::Green => "green"@,
        Color::DarkGreen => "dark_green"@,
        Color::Blue => "blue"@,
        Color::DarkBlue => "dark_blue"@,
        Color::Yellow => "yellow"@,
        Color::DarkYellow => "dark_yellow"@,
        Color::Magenta => "magenta"@,
        Color::DarkMagenta => "dark_magenta"@,
        Color::Cyan => "cyan"@,
        Color::DarkCyan => "dark_cyan"@,
    }
}

/// What parsing a text as a color gives: a name first, else six hex digits.
pub open spec fn parse_color_spec(input: Seq<char>) -> Option<Color> {
    match named_color(input) {
        Some(color) => Some(color),
        None => match hex_rgb(input) {
            Some((r, g, b)) => Some(Color::Rgb { r, g, b }),
            None => None,
        },
    }
}

/// The ANSI color that an 8 bit palette index below 16 stands for.
pub open spec fn eight_bit_color(value: u8) -> Option<Color> {
    if value == 0 {
        Some(Color::Black)
    } else if value == 1 {
        Some(Color::DarkRed)
    } else if value == 2 {
        Some(Color::DarkGreen)
    } else if value == 3 {
        Some(Color::DarkYellow)
    } else if value == 4 {
        Some(Color::DarkBlue)
    } else if value == 5 {
        Some(Color::DarkMagenta)
    } else if value == 6 {
        Some(Color::DarkCyan)
    } else if value == 7 {
        Some(Color::Grey)
    } else if value == 8 {
        Some(Color::DarkGrey)
    } else if value == 9 {
        Some(Color::Red)
    } else if value == 10 {
        Some(Color::Green)
    } else if value == 11 {
        Some(Color::Yellow)
    } else if value == 12 {
        Some(Color::Blue)
    } else if value == 13 {
        Some(Color::Magenta)
    } else if value == 14 {
        Some(Color::Cyan)
    } else if value == 15 {
        Some(Color::White)
    } else {
        None
    }
}


proof fn lemma_hex_digit_roundtrip(v: u8)
    requires
        v < 16,
    ensures
        hex_digit_value(lower_hex_digit(v)) == Some(v),
        'g' != lower_hex_digit(v),
{
}

proof fn lemma_hex_lower_three(r: u8, g: u8, b: u8)
    ensures
        hex_lower(seq![r, g, b]) == seq![
            lower_hex_digit(r / 16),
            lower_hex_digit(r % 16),
            lower_hex_digit(g / 16),
            lower_hex_digit(g % 16),
            lower_hex_digit(b / 16),
            lower_hex_digit(b % 16),
        ],
{
    let s = seq![r, g, b];
    assert(s.drop_first() =~= seq![g, b]);
    assert(seq![g, b].drop_first() =~= seq![b]);
    assert(seq![b].drop_first() =~= Seq::<u8>::empty());
    reveal_with_fuel(hex_lower, 4);
    assert(hex_lower(seq![r, g, b]) =~= seq![
        lower_hex_digit(r / 16),
        lower_hex_digit(r % 16),
        lower_hex_digit(g / 16),
        lower_hex_digit(g % 16),
        lower_hex_digit(b / 16),
        lower_hex_digit(b % 16),
    ]);
}

proof fn lemma_hex_rgb_of_hex_lower(r: u8, g: u8, b: u8)
    ensures
        hex_rgb(hex_lower(seq![r, g, b])) == Some((r, g, b)),
        named_color(hex_lower(seq![r, g, b])) is None,
{
    lemma_hex_lower_three(r, g, b);
    let s = hex_lower(seq![r, g, b]);
    lemma_hex_digit_roundtrip(r / 16);
    lemma_hex_digit_roundtrip(r % 16);
    lemma_hex_digit_roundtrip(g / 16);
    lemma_hex_digit_roundtrip(g % 16);
    lemma_hex_digit_roundtrip(b / 16);
    lemma_hex_digit_roundtrip(b % 16);
    assert(forall|i: int| 0 <= i < 6 ==> (#[trigger] hex_digit_value(s[i])) is Some);
    assert(hex_byte_at(s, 0) == r);
    assert(hex_byte_at(s, 1) == g);
    assert(hex_byte_at(s, 2) == b);
    reveal_strlit("black");
    reveal_strlit("white");
    reveal_strlit("grey");
    reveal_strlit("dark_grey");
    reveal_strlit("red");
    reveal_strlit("dark_red");
    reveal_strlit("green");
    reveal_strlit("dark_green");
    reveal_strlit("blue");
    reveal_strlit("dark_blue");
    reveal_strlit("yellow");
    reveal_strlit("dark_yellow");
    reveal_strlit("magenta");
    reveal_strlit("dark_magenta");
    reveal_strlit("cyan");
    reveal_strlit("dark_cyan");
    // Every name either has another length than six or holds a character that is no hex digit.
    assert(s.len() == 6);
    assert(s != "yellow"@) by {
        assert(hex_digit_value(s[0]) is Some);
        assert(hex_digit_value("yellow"@[0]) is None);
    }
}

/// Printing a color and parsing the text back gives the same color.
pub proof fn lemma_color_text_roundtrip(color: Color)
    ensures
        parse_color_spec(color_text(color)) == Some(color),
{
    reveal_strlit("black");
    reveal_strlit("white");
    reveal_strlit("grey");
    reveal_strlit("dark_grey");
    reveal_strlit("red");
    reveal_strlit("dark_red");
    reveal_strlit("green");
    reveal_strlit("dark_green");
    reveal_strlit("blue");
    reveal_strlit("dark_blue");
    reveal_strlit("yellow");
    reveal_strlit("dark_yellow");
    reveal_strlit("magenta");
    reveal_strlit("dark_magenta");
    reveal_strlit("cyan");
    reveal_strlit("dark_cyan");
    match color {
        Color::Rgb { r, g, b } => {
            lemma_hex_rgb_of_hex_lower(r, g, b);
        },
        _ => {},
    }
}

/// An error parsing a color.
#[derive(Debug)]
pub struct ParseColorError(pub FromHexError);

impl Color {
    /// An RGB color.
    pub fn new(r: u8, g: u8, b: u8) -> (c: Self)
        ensures
            c == (Color::Rgb { r, g, b }),
    {
        Color::Rgb { r, g, b }
    }

    /// The RGB components, if this is an RGB color.
    pub fn as_rgb(&self) -> (rgb: Option<(u8, u8, u8)>)
        ensures
            rgb == (match *self {
                Color::Rgb { r, g, b } => Some((r, g, b)),
                _ => None,
            }),
    {
        match self {
            Color::Rgb { r, g, b } => Some((*r, *g, *b)),
            _ => None,
        }
    }

    /// The color of an ANSI foreground (30-37) or background (40-47) code.
    pub fn from_ansi(color: u8) -> (c: Option<Self>)
        ensures
            c == (if color == 30 || color == 40 {
                Some(Color::Black)
            } else if color == 31 || color == 41 {
                Some(Color::Red)
            } else if color == 32 || color == 42 {
                Some(Color::Green)
            } else if color == 33 || color == 43 {
                Some(Color::Yellow)
            } else if color == 34 || color == 44 {
                Some(Color::Blue)
            } else if color == 35 || color == 45 {
                Some(Color::Magenta)
            } else if color == 36 || color == 46 {
                Some(Color::Cyan)
            } else if color == 37 || color == 47 {
                Some(Color::White)
            } else {
                None
            }),
    {
        if color == 30 || color == 40 {
            Some(Color::Black)
        } else if color == 31 || color == 41 {
            Some(Color::Red)
        } else if color == 32 || color == 42 {
            Some(Color::Green)
        } else if color == 33 || color == 43 {
            Some(Color::Yellow)
        } else if color == 34 || color == 44 {
            Some(Color::Blue)
        } else if color == 35 || color == 45 {
            Some(Color::Magenta)
        } else if color == 36 || color == 46 {
            Some(Color::Cyan)
        } else if color == 37 || color == 47 {
            Some(Color::White)
        } else {
            None
        }
    }

    /// The color of an index into the 16 standard colors of the 8 bit ANSI palette.
    pub fn from_8bit(value: u8) -> (c: Option<Self>)
        ensures
            c == eight_bit_color(value),
    {
        if value == 0 {
            Some(Color::Black)
        } else if value == 1 {
            Some(Color::DarkRed)
        } else if value == 2 {
            Some(Color::DarkGreen)
        } else if value == 3 {
            Some(Color::DarkYellow)
        } else if value == 4 {
            Some(Color::DarkBlue)
        } else if value == 5 {
            Some(Color::DarkMagenta)
        } else if value == 6 {
            Some(Color::DarkCyan)
        } else if value == 7 {
            Some(Color::Grey)
        } else if value == 8 {
            Some(Color::DarkGrey)
        } else if value == 9 {
            Some(Color::Red)
        } else if value == 10 {
            Some(Color::Green)
        } else if value == 11 {
            Some(Color::Yellow)
        } else if value == 12 {
            Some(Color::Blue)
        } else if value == 13 {
            Some(Color::Magenta)
        } else if value == 14 {
            Some(Color::Cyan)
        } else if value == 15 {
            Some(Color::White)
        } else {
            None
        }
    }

    /// Parses a color from its name or from six hex digits.
    pub fn parse(input: &str) -> (r: Result<Self, ParseColorError>)
        ensures
            r is Ok <==> parse_color_spec(input@) is Some,
            r matches Ok(c) ==> Some(c) == parse_color_spec(input@),
    {
        let chars = str_chars(input);
        let name = chars.as_slice();
        if chars_eq_str(name, "black") {
            Ok(Color::Black)
        } else if chars_eq_str(name, "white") {
            Ok(Color::White)
        } else if chars_eq_str(name, "grey") {
            Ok(Color::Grey)
        } else if chars_eq_str(name, "dark_grey") {
            Ok(Color::DarkGrey)
        } else if chars_eq_str(name, "red") {
            Ok(Color::Red)
        } else if chars_eq_str(name, "dark_red") {
            Ok(Color::DarkRed)
        } else if chars_eq_str(name, "green") {
            Ok(Color::Green)
        } else if chars_eq_str(name, "dark_green") {
            Ok(Color::DarkGreen)
        } else if chars_eq_str(name, "blue") {
            Ok(Color::Blue)
        } else if chars_eq_str(name, "dark_blue") {
            Ok(Color::DarkBlue)
        } else if chars_eq_str(name, "yellow") {
            Ok(Color::Yellow)
        } else if chars_eq_str(name, "dark_yellow") {
            Ok(Color::DarkYellow)
        } else if chars_eq_str(name, "magenta") {
            Ok(Color::Magenta)
        } else if chars_eq_str(name, "dark_magenta") {
            Ok(Color::DarkMagenta)
        } else if chars_eq_str(name, "cyan") {
            Ok(Color::Cyan)
        } else if chars_eq_str(name, "dark_cyan") {
            Ok(Color::DarkCyan)
        } else {
            match decode_hex_rgb(input) {
                Ok(values) => Ok(Color::Rgb { r: values[0], g: values[1], b: values[2] }),
                Err(e) => Err(ParseColorError(e)),
            }
        }
    }

    /// The text this color prints as: its name, or six lower case hex digits.
    pub fn to_string(&self) -> (s: String)
        ensures
            s@ == color_text(*self),
    {
        let text = match self {
            Color::Rgb { r, g, b } => {
                return encode_hex_rgb(*r, *g, *b);
            },
            Color::Black => "black",
            Color::White => "white",
            Color::Grey => "grey",
            Color::DarkGrey => "dark_grey",
            Color::Red => "red",
            Color::DarkRed => "dark_red",
            Color::Green => "green",
            Color::DarkGreen => "dark_green",
            Color::Blue => "blue",
            Color::DarkBlue => "dark_blue",
            Color::Yellow => "yellow",
            Color::DarkYellow => "dark_yellow",
            Color::Magenta => "magenta",
            Color::DarkMagenta => "dark_magenta",
            Color::Cyan => "cyan",
            Color::DarkCyan => "dark_cyan",
        };
        let chars = str_chars(text);
        string_from_chars(chars.as_slice())
    }
}

/// Text colors.
#[derive(Clone, Copy, Debug, PartialEq, Eq, Structural)]
pub struct Colors {
    /// The background color.
    pub background: Option<Color>,
    /// The foreground color.
    pub foreground: Option<Color>,
}

/// `a`, or `b` when `a` is absent.
pub open spec fn or_color(a: Option<Color>, b: Option<Color>) -> Option<Color> {
    match a {
        Some(c) => Some(c),
        None => b,
    }
}

fn or_color_exec(a: Option<Color>, b: Option<Color>) -> (c: Option<Color>)
    ensures
        c == or_color(a, b),
{
    match a {
        Some(c) => Some(c),
        None => b,
    }
}

impl Colors {
    /// No colors at all.
    pub fn none() -> (c: Self)
        ensures
            c.background is None,
            c.foreground is None,
    {
        Colors { background: None, foreground: None }
    }

    /// Merges two sets of colors, preferring the ones in `self`.
    pub fn merge(&self, other: &Colors) -> (c: Self)
        ensures
            c.background == or_color(self.background, other.background),
            c.foreground == or_color(self.foreground, other.foreground),
    {
        let background = or_color_exec(self.background, other.background);
        let foreground = or_color_exec(self.foreground, other.foreground);
        Colors { background, foreground }
    }
}

impl Default for Colors {
    fn default() -> (c: Self)
        ensures
            c.background is None,
            c.foreground is None,
    {
        Colors { background: None, foreground: None }
    }
}

/// `a` merged with `b`: format bits joined, missing colors taken from `b`, `a`'s size.
pub open spec fn merged_style(a: TextStyle, b: TextStyle) -> TextStyle {
    TextStyle {
        flags: a.flags | b.flags,
        colors: Colors {
            background: or_color(a.colors.background, b.colors.background),
            foreground: or_color(a.colors.foreground, b.colors.foreground),
        },
        size: a.size,
    }
}

/// The style of a piece of text.
#[derive(Clone, Copy, Debug, PartialEq, Eq, Structural)]
pub struct TextStyle {
    /// The format bits (bold, italics, code, strikethrough, underlined).
    pub flags: u8,
    /// The colors.
    pub colors: Colors,
    /// The font size, in cells per character.
    pub size: u8,
}

/// Whether some format bits include a given bit.
pub open spec fn flag_set(flags: u8, flag: u8) -> bool {
    flags & flag != 0
}

impl TextStyle {
    /// The plain style: no format, no colors, font size 1.
    pub open spec fn plain() -> TextStyle {
        TextStyle { flags: 0, colors: Colors { background: None, foreground: None }, size: 1 }
    }

    /// A plain style with the given colors.
    pub fn colored(colors: Colors) -> (s: Self)
        ensures
            s == (TextStyle { colors, ..TextStyle::plain() }),
    {
        TextStyle { flags: 0, colors, size: 1 }
    }

    /// Adds a format bit.
    pub fn add_flag(self, flag: u8) -> (s: Self)
        ensures
            s == (TextStyle { flags: self.flags | flag, ..self }),
    {
        TextStyle { flags: self.flags | flag, ..self }
    }

    /// Whether a format bit is set.
    pub fn has_flag(&self, flag: u8) -> (b: bool)
        ensures
            b == flag_set(self.flags, flag),
    {
        self.flags & flag != 0
    }

    /// Adds bold to this style.
    pub fn bold(self) -> (s: Self)
        ensures
            s == (TextStyle { flags: self.flags | BOLD_FLAG, ..self }),
    {
        self.add_flag(BOLD_FLAG)
    }

    /// Adds italics to this style.
    pub fn italics(self) -> (s: Self)
        ensures
            s == (TextStyle { flags: self.flags | ITALICS_FLAG, ..self }),
    {
        self.add_flag(ITALICS_FLAG)
    }

    /// Marks this text as inline code.
    pub fn code(self) -> (s: Self)
        ensures
            s == (TextStyle { flags: self.flags | CODE_FLAG, ..self }),
    {
        self.add_flag(CODE_FLAG)
    }

    /// Adds strikethrough to this style.
    pub fn strikethrough(self) -> (s: Self)
        ensures
            s == (TextStyle { flags: self.flags | STRIKETHROUGH_FLAG, ..self }),
    {
        self.add_flag(STRIKETHROUGH_FLAG)
    }

    /// Adds underline to this style.
    pub fn underlined(self) -> (s: Self)
        ensures
            s == (TextStyle { flags: self.flags | UNDERLINED_FLAG, ..self }),
    {
        self.add_flag(UNDERLINED_FLAG)
    }

    /// The style of a link label: bold.
    pub fn link_label(self) -> (s: Self)
        ensures
            s == (TextStyle { flags: self.flags | BOLD_FLAG, ..self }),
    {
        self.bold()
    }

    /// The style of a link title: italics.
    pub fn link_title(self) -> (s: Self)
        ensures
            s == (TextStyle { flags: self.flags | ITALICS_FLAG, ..self }),
    {
        self.italics()
    }

    /// The style of a link url: italics and underlined.
    pub fn link_url(self) -> (s: Self)
        ensures
            s == (TextStyle { flags: (self.flags | ITALICS_FLAG) | UNDERLINED_FLAG, ..self }),
    {
        self.italics().underlined()
    }

    /// Sets the colors.
    pub fn colors(self, colors: Colors) -> (s: Self)
        ensures
            s == (TextStyle { colors, ..self }),
    {
        TextStyle { colors, ..self }
    }

    /// Sets the font size.
    pub fn size(self, size: u8) -> (s: Self)
        ensures
            s == (TextStyle { size, ..self }),
    {
        TextStyle { size, ..self }
    }

    /// Sets the foreground color.
    pub fn fg_color(self, color: Color) -> (s: Self)
        ensures
            s == (TextStyle { colors: Colors { foreground: Some(color), ..self.colors }, ..self }),
    {
        TextStyle { colors: Colors { foreground: Some(color), ..self.colors }, ..self }
    }

    /// Sets the background color.
    pub fn bg_color(self, color: Color) -> (s: Self)
        ensures
            s == (TextStyle { colors: Colors { background: Some(color), ..self.colors }, ..self }),
    {
        TextStyle { colors: Colors { background: Some(color), ..self.colors }, ..self }
    }

    /// Whether this style is bold.
    pub fn is_bold(&self) -> (b: bool)
        ensures
            b == flag_set(self.flags, BOLD_FLAG),
    {
        self.has_flag(BOLD_FLAG)
    }

    /// Whether this style has italics.
    pub fn is_italics(&self) -> (b: bool)
        ensures
            b == flag_set(self.flags, ITALICS_FLAG),
    {
        self.has_flag(ITALICS_FLAG)
    }

    /// Whether this text is code.
    pub fn is_code(&self) -> (b: bool)
        ensures
            b == flag_set(self.flags, CODE_FLAG),
    {
        self.has_flag(CODE_FLAG)
    }

    /// Whether this style is strikethrough.
    pub fn is_strikethrough(&self) -> (b: bool)
        ensures
            b == flag_set(self.flags, STRIKETHROUGH_FLAG),
    {
        self.has_flag(STRIKETHROUGH_FLAG)
    }

    /// Whether this style is underlined.
    pub fn is_underlined(&self) -> (b: bool)
        ensures
            b == flag_set(self.flags, UNDERLINED_FLAG),
    {
        self.has_flag(UNDERLINED_FLAG)
    }

    /// Merges another style into this one: format bits are joined and missing colors are
    /// taken from `other`.
    pub fn merge(&mut self, other: &TextStyle)
        ensures
            final(self).flags == old(self).flags | other.flags,
            final(self).colors.background == or_color(
                old(self).colors.background,
                other.colors.background,
            ),
            final(self).colors.foreground == or_color(
                old(self).colors.foreground,
                other.colors.foreground,
            ),
            final(self).size == old(self).size,
    {
        self.flags = self.flags | other.flags;
        self.colors.background = or_color_exec(self.colors.background, other.colors.background);
        self.colors.foreground = or_color_exec(self.colors.foreground, other.colors.foreground);
    }

    /// This style merged with another one, as `merge` does.
    pub fn merged(&self, other: &TextStyle) -> (s: Self)
        ensures
            s == merged_style(*self, *other),
            s.flags == self.flags | other.flags,
            s.colors.background == or_color(self.colors.background, other.colors.background),
            s.colors.foreground == or_color(self.colors.foreground, other.colors.foreground),
            s.size == self.size,
    {
        let mut s = *self;
        s.merge(other);
        s
    }

    /// Whether this style has any format bits.
    pub fn has_modifiers(&self) -> (b: bool)
        ensures
            b == (self.flags != 0),
    {
        self.flags != 0
    }
}

/// Adding a format bit to a style sets that bit and keeps every bit that was set before; a
/// bit neither set before nor added stays unset.
pub proof fn lemma_add_flag_effect(flags: u8, flag: u8, other: u8)
    by (bit_vector)
    ensures
        flag != 0 ==> flag_set(flags | flag, flag),
        flag_set(flags, other) ==> flag_set(flags | flag, other),
        (!flag_set(flags, other) && other & flag == 0) ==> !flag_set(flags | flag, other),
{
}

/// Merging styles joins their format bits: a bit is set after a merge exactly when it was set
/// in either style.
pub proof fn lemma_merge_flags(a: u8, b: u8, flag: u8)
    by (bit_vector)
    ensures
        flag_set(a | b, flag) == (flag_set(a, flag) || flag_set(b, flag)),
{
}

impl Default for TextStyle {
    fn default() -> (s: Self)
        ensures
            s == TextStyle::plain(),
    {
        TextStyle { flags: 0, colors: Colors { background: None, foreground: None }, size: 1 }
    }
}

} // verus!
