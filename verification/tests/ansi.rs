use presenterm::ansi::{parse_sgr, AnsiLine};
use presenterm::style::{Color, TextStyle};
use presenterm::text::Text;
use vte::{Params, Parser, Perform};

struct Handler(AnsiLine);

impl Perform for Handler {
    fn print(&mut self, c: char) {
        self.0.print(c);
    }

    fn csi_dispatch(&mut self, params: &Params, _intermediates: &[u8], _ignore: bool, action: char) {
        let params: Vec<Vec<u16>> = params.iter().map(|p| p.to_vec()).collect();
        self.0.csi_dispatch(&params, action);
    }
}

fn parse(style: TextStyle, input: &str) -> Vec<(String, TextStyle)> {
    let mut handler = Handler(AnsiLine::new(style));
    Parser::new().advance(&mut handler, input.as_bytes());
    let (pieces, _) = handler.0.into_parts();
    pieces.into_iter().map(|Text { content, style }| (content, style)).collect()
}

fn one(content: &str, style: TextStyle) -> Vec<(String, TextStyle)> {
    vec![(content.to_string(), style)]
}

#[test]
fn parse_single() {
    let plain = TextStyle::default();
    let cases: Vec<(&str, Vec<(String, TextStyle)>)> = vec![
        ("hi", one("hi", plain)),
        ("\x1b[1mhi", one("hi", plain.bold())),
        ("\x1b[1;3mhi", one("hi", plain.bold().italics())),
        ("\x1b[1;3;4mhi", one("hi", plain.bold().italics().underlined())),
        ("\x1b[1;3;4;9mhi", one("hi", plain.bold().italics().underlined().strikethrough())),
        ("\x1b[38;5;1mhi", one("hi", plain.fg_color(Color::DarkRed))),
        ("\x1b[31mhi", one("hi", plain.fg_color(Color::DarkRed))),
        ("\x1b[38;2;3;4;5mhi", one("hi", plain.fg_color(Color::new(3, 4, 5)))),
        ("\x1b[48;5;1mhi", one("hi", plain.bg_color(Color::DarkRed))),
        ("\x1b[41mhi", one("hi", plain.bg_color(Color::DarkRed))),
        ("\x1b[48;2;3;4;5mhi", one("hi", plain.bg_color(Color::new(3, 4, 5)))),
        (
            "\x1b[1mhi\x1b[3mbye",
            vec![("hi".to_string(), plain.bold()), ("bye".to_string(), plain.bold().italics())],
        ),
        ("\x1b[1mhi\x1b[0;3mbye", vec![("hi".to_string(), plain.bold()), ("bye".to_string(), plain.italics())]),
        ("\x1b[01m\x1b[Khi", one("hi", plain.bold())),
    ];
    for (input, expected) in cases {
        assert_eq!(parse(plain, input), expected, "{input:?}");
    }
}

#[test]
fn resets() {
    let style = TextStyle::default()
        .bold()
        .italics()
        .underlined()
        .strikethrough()
        .fg_color(Color::Red)
        .bg_color(Color::Black);
    let base = TextStyle::default().bold().italics().underlined().strikethrough();
    assert_eq!(parse(style, "\x1b[0mhi"), one("hi", TextStyle::default()));
    assert_eq!(parse(style, "\x1b[39mhi"), one("hi", base.bg_color(Color::Black)));
    assert_eq!(parse(style, "\x1b[49mhi"), one("hi", base.fg_color(Color::Red)));
}

#[test]
fn extended_colors_need_all_their_parameters() {
    let plain = TextStyle::default();
    // red, green and blue past 255 give no color, and the codes after them still count
    assert_eq!(parse_sgr(plain, &vec![vec![38], vec![2], vec![300], vec![1], vec![1], vec![1]]), plain.bold());
    // a missing blue gives no color
    assert_eq!(parse_sgr(plain, &vec![vec![38], vec![2], vec![1], vec![2]]), plain);
    // palette indexes past the standard colors give no color
    assert_eq!(parse_sgr(plain, &vec![vec![48], vec![5], vec![200]]), plain);
    // a parameter with subparameters ends the codes
    assert_eq!(parse_sgr(plain, &vec![vec![1], vec![4, 3], vec![3]]), plain.bold());
}

#[test]
fn text_before_any_code_is_plain() {
    let style = TextStyle::default().bold();
    assert_eq!(parse(style, "hi"), one("hi", TextStyle::default()));
}
