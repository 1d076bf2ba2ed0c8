use presenterm::draw::NullWrite;
use presenterm::virt::Terminal;
use presenterm::engine::{
    MaxColumnsAlignment, MaxRowsAlignment, MaxSize, RenderEngine, RenderEngineOptions, TerminalIo,
};
use presenterm::operation::{BlockLine, MarginProperties, RenderOperation};
use presenterm::options::RenderError;
use presenterm::properties::WindowSize;
use presenterm::style::{Color, TextStyle};
use presenterm::text::{Text, WeightedLine};
use presenterm::theme::{Alignment, Margin};
use presenterm::virt::TerminalCommand;
use std::io;
use unicode_width::UnicodeWidthStr;

#[derive(Debug, PartialEq)]
enum Instruction {
    MoveTo(u16, u16),
    MoveToRow(u16),
    MoveToColumn(u16),
    MoveDown(u16),
    MoveToNextLine,
    PrintText(String),
    ClearScreen,
    SetBackgroundColor(Color),
}

#[derive(Default)]
struct TerminalBuf {
    instructions: Vec<Instruction>,
    cursor_row: u16,
}

impl TerminalIo for TerminalBuf {
    fn row(&self) -> u16 {
        self.cursor_row
    }

    fn execute(&mut self, command: &TerminalCommand) -> Result<(), io::Error> {
        match command {
            TerminalCommand::MoveTo { column, row } => {
                self.cursor_row = *row;
                self.instructions.push(Instruction::MoveTo(*column, *row));
            }
            TerminalCommand::MoveToRow(row) => {
                self.cursor_row = *row;
                self.instructions.push(Instruction::MoveToRow(*row));
            }
            TerminalCommand::MoveToColumn(column) => self.instructions.push(Instruction::MoveToColumn(*column)),
            TerminalCommand::MoveDown(amount) => self.instructions.push(Instruction::MoveDown(*amount)),
            TerminalCommand::MoveToNextLine => self.instructions.push(Instruction::MoveToNextLine),
            TerminalCommand::PrintText { content, .. } => {
                if !content.is_empty() {
                    self.cursor_row = content.width() as u16;
                    self.instructions.push(Instruction::PrintText(content.clone()));
                }
            }
            TerminalCommand::ClearScreen => {
                self.cursor_row = 0;
                self.instructions.push(Instruction::ClearScreen);
            }
            TerminalCommand::SetBackgroundColor(color) => {
                self.instructions.push(Instruction::SetBackgroundColor(*color))
            }
            TerminalCommand::BeginUpdate
            | TerminalCommand::EndUpdate
            | TerminalCommand::Flush
            | TerminalCommand::SetColors(_)
            | TerminalCommand::SetCursorBoundaries { .. } => (),
        }
        Ok(())
    }

    fn cursor_row(&self) -> u16 {
        self.cursor_row
    }
}

fn try_render(max_size: MaxSize, operations: &[RenderOperation]) -> (Vec<Instruction>, Result<(), RenderError>) {
    let mut buf = TerminalBuf::default();
    let dimensions = WindowSize { rows: 100, columns: 100, height: 200, width: 200 };
    let options = RenderEngineOptions { validate_overflows: false, max_size, column_layout_margin: 0 };
    let mut engine = RenderEngine::new(&buf, dimensions, options);
    let result = engine.render(&mut buf, &operations.to_vec());
    (buf.instructions, result)
}

fn do_render(max_size: MaxSize, operations: &[RenderOperation]) -> Vec<Instruction> {
    let (instructions, result) = try_render(max_size, operations);
    result.expect("render failed");
    instructions
}

fn render(operations: &[RenderOperation]) -> Vec<Instruction> {
    do_render(MaxSize::default(), operations)
}

fn render_with_max_size(operations: &[RenderOperation]) -> Vec<Instruction> {
    let max_size = MaxSize {
        max_rows: 10,
        max_rows_alignment: MaxRowsAlignment::Center,
        max_columns: 20,
        max_columns_alignment: MaxColumnsAlignment::Center,
    };
    do_render(max_size, operations)
}

fn text(content: &str) -> RenderOperation {
    RenderOperation::RenderText {
        line: WeightedLine::from_str(content),
        alignment: Alignment::Left { margin: Margin::Fixed(0) },
    }
}

#[test]
fn columns() {
    let ops = render(&[
        RenderOperation::InitColumnLayout { columns: vec![1, 1] },
        // print on column 0
        RenderOperation::EnterColumn { column: 0 },
        text("A"),
        // print on column 1
        RenderOperation::EnterColumn { column: 1 },
        text("B"),
        // go back to column 0 and print
        RenderOperation::EnterColumn { column: 0 },
        text("1"),
    ]);
    let expected = [
        Instruction::MoveToRow(0),
        Instruction::MoveToColumn(0),
        Instruction::PrintText("A".into()),
        Instruction::MoveToRow(0),
        Instruction::MoveToColumn(50),
        Instruction::PrintText("B".into()),
        // when we go back we should proceed from where we left off (row == 1)
        Instruction::MoveToRow(1),
        Instruction::MoveToColumn(0),
        Instruction::PrintText("1".into()),
    ];
    assert_eq!(ops, expected);
}

#[test]
fn bottom_margin() {
    let ops = render(&[
        RenderOperation::ApplyMargin(MarginProperties { horizontal: Margin::Fixed(1), top: 0, bottom: 10 }),
        text("A"),
        RenderOperation::JumpToBottomRow { index: 0 },
        text("B"),
    ]);
    let expected = [
        Instruction::MoveToColumn(1),
        Instruction::PrintText("A".into()),
        // 100 - 10 (bottom margin)
        Instruction::MoveToRow(89),
        Instruction::MoveToColumn(1),
        Instruction::PrintText("B".into()),
    ];
    assert_eq!(ops, expected);
}

#[test]
fn top_margin() {
    let ops = render(&[
        RenderOperation::ApplyMargin(MarginProperties { horizontal: Margin::Fixed(1), top: 3, bottom: 0 }),
        text("A"),
    ]);
    let expected = [Instruction::MoveToRow(3), Instruction::MoveToColumn(1), Instruction::PrintText("A".into())];
    assert_eq!(ops, expected);
}

#[test]
fn margins() {
    let ops = render(&[
        RenderOperation::ApplyMargin(MarginProperties { horizontal: Margin::Fixed(1), top: 3, bottom: 10 }),
        RenderOperation::JumpToRow { index: 0 },
        text("A"),
        RenderOperation::JumpToBottomRow { index: 0 },
        text("B"),
    ]);
    let expected = [
        Instruction::MoveToRow(3),
        Instruction::MoveToRow(3),
        Instruction::MoveToColumn(1),
        Instruction::PrintText("A".into()),
        // 100 - 10 (bottom margin)
        Instruction::MoveToRow(89),
        Instruction::MoveToColumn(1),
        Instruction::PrintText("B".into()),
    ];
    assert_eq!(ops, expected);
}

#[test]
fn nested_margins() {
    let ops = render(&[
        RenderOperation::ApplyMargin(MarginProperties { horizontal: Margin::Fixed(1), top: 0, bottom: 10 }),
        RenderOperation::ApplyMargin(MarginProperties { horizontal: Margin::Fixed(1), top: 0, bottom: 10 }),
        text("A"),
        RenderOperation::JumpToBottomRow { index: 0 },
        text("B"),
        // pop and go to bottom, this should go back up to the end of the first margin
        RenderOperation::PopMargin,
        RenderOperation::JumpToBottomRow { index: 0 },
        text("C"),
    ]);
    let expected = [
        Instruction::MoveToColumn(2),
        Instruction::PrintText("A".into()),
        // 100 - 10 (margin) - 10 (second margin)
        Instruction::MoveToRow(79),
        Instruction::MoveToColumn(2),
        Instruction::PrintText("B".into()),
        // 100 - 10 (margin)
        Instruction::MoveToRow(89),
        Instruction::MoveToColumn(1),
        Instruction::PrintText("C".into()),
    ];
    assert_eq!(ops, expected);
}

#[test]
fn margin_with_max_size() {
    let ops = render_with_max_size(&[
        text("A"),
        RenderOperation::ApplyMargin(MarginProperties { horizontal: Margin::Fixed(1), top: 2, bottom: 1 }),
        text("B"),
        RenderOperation::JumpToBottomRow { index: 0 },
        text("C"),
    ]);
    let expected = [
        // centered 20x10
        Instruction::MoveTo(40, 45),
        Instruction::MoveToColumn(40),
        Instruction::PrintText("A".into()),
        // jump 2 down because of top margin
        Instruction::MoveToRow(47),
        // jump 1 right because of horizontal margin
        Instruction::MoveToColumn(41),
        Instruction::PrintText("B".into()),
        // rows go from 47 to 53 (7 total)
        Instruction::MoveToRow(53),
        Instruction::MoveToColumn(41),
        Instruction::PrintText("C".into()),
    ];
    assert_eq!(ops, expected);
}

#[test]
fn errors() {
    let (_, result) = try_render(MaxSize::default(), &[RenderOperation::PopMargin]);
    assert!(matches!(result, Err(RenderError::PopDefaultScreen)));
    let (_, result) = try_render(MaxSize::default(), &[RenderOperation::EnterColumn { column: 0 }]);
    assert!(matches!(result, Err(RenderError::InvalidLayoutEnter)));
    let (_, result) = try_render(
        MaxSize::default(),
        &[RenderOperation::InitColumnLayout { columns: vec![1] }, RenderOperation::EnterColumn { column: 1 }],
    );
    assert!(matches!(result, Err(RenderError::InvalidLayoutEnter)));
    let (instructions, result) = try_render(
        MaxSize::default(),
        &[RenderOperation::ApplyMargin(MarginProperties { horizontal: Margin::Fixed(46), top: 0, bottom: 0 }), text(
            "a line that is far too wide for eight columns",
        )],
    );
    assert!(matches!(result, Err(RenderError::TerminalTooSmall)));
    assert!(instructions.is_empty());
}

#[test]
fn clear_screen_and_jumps() {
    let ops = render_with_max_size(&[
        RenderOperation::ClearScreen,
        RenderOperation::JumpToVerticalCenter,
        RenderOperation::JumpToColumn { index: 3 },
        RenderOperation::RenderLineBreak,
    ]);
    let expected = [
        Instruction::MoveTo(40, 45),
        Instruction::ClearScreen,
        Instruction::MoveTo(40, 45),
        // 10 rows, centered
        Instruction::MoveToRow(50),
        Instruction::MoveToColumn(43),
        Instruction::MoveToNextLine,
    ];
    assert_eq!(ops, expected);
}

#[test]
fn exit_layout_goes_below_the_columns() {
    let ops = render(&[
        RenderOperation::InitColumnLayout { columns: vec![1, 3] },
        RenderOperation::EnterColumn { column: 1 },
        text("A"),
        RenderOperation::ExitLayout,
        text("B"),
    ]);
    let expected = [
        Instruction::MoveToRow(0),
        Instruction::MoveToColumn(25),
        Instruction::PrintText("A".into()),
        // the lowest row drawn on is the one printing "A" left the cursor in
        Instruction::MoveTo(0, 1),
        Instruction::MoveToColumn(0),
        Instruction::PrintText("B".into()),
    ];
    assert_eq!(ops, expected);
}

#[test]
fn block_lines_fill_the_block() {
    let ops = render(&[RenderOperation::RenderBlockLine(BlockLine {
        prefix: Text::new("", TextStyle::default()),
        right_padding_length: 0,
        repeat_prefix_on_wrap: false,
        text: WeightedLine::from_str("hi"),
        block_length: 6,
        alignment: Alignment::Left { margin: Margin::Fixed(2) },
        block_color: Some(Color::Red),
    })]);
    let expected = [
        Instruction::MoveToColumn(2),
        Instruction::MoveToColumn(2),
        Instruction::PrintText("hi".into()),
        Instruction::SetBackgroundColor(Color::Red),
        // the rest of the 96 columns left by the margins
        Instruction::PrintText(" ".repeat(94)),
    ];
    assert_eq!(ops, expected);
}

#[test]
fn terminal_refuses_moves_past_the_last_row() {
    let mut terminal = Terminal::new(NullWrite).expect("init failed");
    TerminalIo::execute(&mut terminal, &TerminalCommand::MoveToRow(10)).expect("move failed");
    assert!(TerminalIo::execute(&mut terminal, &TerminalCommand::MoveDown(u16::MAX)).is_err());
    assert_eq!(TerminalIo::cursor_row(&terminal), 10);
    TerminalIo::execute(&mut terminal, &TerminalCommand::MoveDown(5)).expect("move failed");
    assert_eq!(TerminalIo::cursor_row(&terminal), 15);
}
