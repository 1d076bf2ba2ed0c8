use presenterm::layout::Positioning;
use presenterm::options::RenderError;
use presenterm::style::{Color, Colors, TextStyle};
use presenterm::text::{Text, WeightedLine};
use presenterm::text_drawer::TextDrawer;
use presenterm::virt::TerminalCommand;

#[derive(Debug, PartialEq)]
enum Instruction {
    MoveDown(u16),
    MoveToColumn(u16),
    PrintText { content: String, font_size: u8 },
}

fn instructions(commands: Vec<TerminalCommand>) -> Vec<Instruction> {
    let mut out = Vec::new();
    for command in commands {
        match command {
            TerminalCommand::MoveDown(amount) => out.push(Instruction::MoveDown(amount)),
            TerminalCommand::MoveToColumn(column) => out.push(Instruction::MoveToColumn(column)),
            TerminalCommand::PrintText { content, style, .. } => {
                if !content.is_empty() {
                    out.push(Instruction::PrintText { content, font_size: style.size });
                }
            }
            TerminalCommand::SetColors(_) | TerminalCommand::SetBackgroundColor(_) => {}
            other => panic!("unexpected command {other:?}"),
        }
    }
    out
}

struct TestDrawer {
    prefix: Text,
    positioning: Positioning,
    right_padding_length: u16,
    repeat_prefix_on_wrap: bool,
    center_newlines: bool,
}

impl Default for TestDrawer {
    fn default() -> Self {
        Self {
            prefix: Text::plain(""),
            positioning: Positioning { max_line_length: 100, start_column: 0 },
            right_padding_length: 0,
            repeat_prefix_on_wrap: false,
            center_newlines: false,
        }
    }
}

impl TestDrawer {
    fn prefix(mut self, prefix: Text) -> Self {
        self.prefix = prefix;
        self
    }

    fn start_column(mut self, column: u16) -> Self {
        self.positioning.start_column = column;
        self
    }

    fn max_line_length(mut self, length: u16) -> Self {
        self.positioning.max_line_length = length;
        self
    }

    fn repeat_prefix_on_wrap(mut self) -> Self {
        self.repeat_prefix_on_wrap = true;
        self
    }

    fn center_newlines(mut self) -> Self {
        self.center_newlines = true;
        self
    }

    fn draw(self, line: WeightedLine) -> Vec<Instruction> {
        let colors = Colors::default();
        let drawer = TextDrawer::new(&self.prefix, self.right_padding_length, &line, self.positioning, &colors, 0)
            .expect("failed to create drawer")
            .repeat_prefix_on_wrap(self.repeat_prefix_on_wrap)
            .center_newlines(self.center_newlines);
        instructions(drawer.draw())
    }
}

fn sized(content: &str, size: u8) -> Text {
    Text::new(content, TextStyle::default().size(size))
}

#[test]
fn prefix_on_long_line() {
    let instructions = TestDrawer::default()
        .prefix(Text::plain("P"))
        .max_line_length(3)
        .start_column(1)
        .draw(WeightedLine::from_str("AAAA"));
    let expected = &[
        Instruction::MoveToColumn(1),
        Instruction::PrintText { content: "P".into(), font_size: 1 },
        Instruction::PrintText { content: "AA".into(), font_size: 1 },
        Instruction::MoveDown(1),
        Instruction::MoveToColumn(1),
        Instruction::PrintText { content: " ".into(), font_size: 1 },
        Instruction::PrintText { content: "AA".into(), font_size: 1 },
    ];
    assert_eq!(instructions, expected);
}

#[test]
fn prefix_on_long_line_with_font_size() {
    let text = WeightedLine::from_text(sized("AAAA", 2));
    let instructions = TestDrawer::default().prefix(sized("P", 2)).max_line_length(6).start_column(1).draw(text);
    let expected = &[
        Instruction::MoveToColumn(1),
        Instruction::PrintText { content: "P".into(), font_size: 2 },
        Instruction::PrintText { content: "AA".into(), font_size: 2 },
        Instruction::MoveDown(2),
        Instruction::MoveToColumn(1),
        Instruction::PrintText { content: " ".into(), font_size: 2 },
        Instruction::PrintText { content: "AA".into(), font_size: 2 },
    ];
    assert_eq!(instructions, expected);
}

#[test]
fn prefix_on_long_line_with_font_size_and_repeat_prefix() {
    let text = WeightedLine::from_text(sized("AAAA", 2));
    let instructions = TestDrawer::default()
        .prefix(sized("P", 2))
        .max_line_length(6)
        .start_column(1)
        .repeat_prefix_on_wrap()
        .draw(text);
    let expected = &[
        Instruction::MoveToColumn(1),
        Instruction::PrintText { content: "P".into(), font_size: 2 },
        Instruction::PrintText { content: "AA".into(), font_size: 2 },
        Instruction::MoveDown(2),
        Instruction::MoveToColumn(1),
        Instruction::PrintText { content: "P".into(), font_size: 2 },
        Instruction::PrintText { content: "AA".into(), font_size: 2 },
    ];
    assert_eq!(instructions, expected);
}

#[test]
fn center_newlines() {
    let text = WeightedLine::from_text(Text::plain("hello world foo"));
    let instructions = TestDrawer::default().center_newlines().max_line_length(11).draw(text);
    let expected = &[
        Instruction::MoveToColumn(0),
        Instruction::PrintText { content: "hello world".into(), font_size: 1 },
        Instruction::MoveDown(1),
        Instruction::MoveToColumn(4),
        Instruction::PrintText { content: "foo".into(), font_size: 1 },
    ];
    assert_eq!(instructions, expected);
}

#[test]
fn too_small_terminal() {
    let line = WeightedLine::from_str("hello");
    let prefix = Text::plain("");
    let positioning = Positioning { max_line_length: 3, start_column: 0 };
    let result = TextDrawer::new(&prefix, 0, &line, positioning, &Colors::default(), 3);
    assert!(matches!(result, Err(RenderError::TerminalTooSmall)));
}

#[test]
fn styled_pieces_keep_their_styles_across_lines() {
    let line = WeightedLine {
        chunks: vec![Text::new("bold words", TextStyle::default().bold()), Text::plain(" and plain")],
    };
    let prefix = Text::plain("");
    let colors = Colors::default();
    let positioning = Positioning { max_line_length: 12, start_column: 2 };
    let drawer = TextDrawer::new(&prefix, 0, &line, positioning, &colors, 0).unwrap();
    let lines = line.split(12);
    // "bold words a" fits in 12 columns but breaks a word, so the line ends after "words".
    assert_eq!(lines.len(), 2);
    assert_eq!(lines[0].len(), 1);
    assert_eq!(lines[0][0].content, "bold words");
    assert!(lines[0][0].style.is_bold());
    assert_eq!(lines[1].len(), 1);
    assert_eq!(lines[1][0].content, "and plain");
    assert!(!lines[1][0].style.is_bold());
    let commands = drawer.draw();
    // The bold piece is followed by the default colors being set again.
    assert!(matches!(commands[2], TerminalCommand::SetColors(_)));
}

#[test]
fn block_fills_the_rest_of_each_line() {
    let line = WeightedLine::from_str("ab cd");
    let prefix = Text::plain("");
    let colors = Colors::default();
    let positioning = Positioning { max_line_length: 4, start_column: 0 };
    let drawer =
        TextDrawer::new(&prefix, 1, &line, positioning, &colors, 0).unwrap().with_surrounding_block(Some(Color::Red));
    let commands = drawer.draw();
    let mut backgrounds = 0;
    let mut fills = Vec::new();
    for command in &commands {
        match command {
            TerminalCommand::SetBackgroundColor(Color::Red) => backgrounds += 1,
            TerminalCommand::PrintText { content, .. } if content.trim().is_empty() => fills.push(content.len()),
            _ => {}
        }
    }
    // 3 columns of text room: "ab" then "cd", each followed by 1 column of room and 1 of padding.
    assert_eq!(backgrounds, 2);
    assert_eq!(fills, vec![2, 2]);
}
