use presenterm::draw::{error_operations, validate_overflows, OverflowError, TerminalDrawer};
use presenterm::operation::RenderOperation;
use presenterm::presenter::ErrorSource;
use presenterm::properties::WindowSize;
use presenterm::style::{Color, Colors, TextStyle};
use presenterm::theme::{Alignment, Margin};
use presenterm::virt::{TerminalCommand, TerminalWrite};
use std::cell::RefCell;
use std::io;
use std::rc::Rc;

#[derive(Default, Clone)]
struct Recorder {
    printed: Rc<RefCell<Vec<String>>>,
}

impl TerminalWrite for Recorder {
    fn init(&mut self) -> Result<(), io::Error> {
        Ok(())
    }

    fn deinit(&mut self) {}

    fn send(&mut self, command: &TerminalCommand, _rows: u16) -> Result<(), io::Error> {
        match command {
            TerminalCommand::PrintText { content, .. } => self.printed.borrow_mut().push(content.clone()),
            _ => (),
        }
        Ok(())
    }
}

fn texts(op: &RenderOperation) -> Vec<(String, TextStyle)> {
    match op {
        RenderOperation::RenderText { line, .. } => {
            line.chunks.iter().map(|t| (t.content.clone(), t.style)).collect()
        }
        _ => panic!("not text"),
    }
}

#[test]
fn error_in_a_slide() {
    let ops = error_operations("bad\nthing", &ErrorSource::Slide(3), 20);
    assert_eq!(ops.len(), 10);
    assert!(matches!(
        ops[0],
        RenderOperation::SetColors(Colors {
            foreground: Some(Color::Rgb { r: 255, g: 0, b: 0 }),
            background: Some(Color::Rgb { r: 0, g: 0, b: 0 })
        })
    ));
    assert!(matches!(ops[1], RenderOperation::ClearScreen));
    // 20 / 2 - (2 / 2 + 3)
    assert!(matches!(ops[2], RenderOperation::JumpToRow { index: 6 }));
    assert_eq!(
        texts(&ops[3]),
        vec![("Error in slide 3".to_string(), TextStyle::default().bold()), (": ".to_string(), TextStyle::default())]
    );
    assert!(matches!(ops[4], RenderOperation::RenderLineBreak));
    assert!(matches!(ops[5], RenderOperation::RenderLineBreak));
    assert_eq!(texts(&ops[6]), vec![("bad".to_string(), TextStyle::default())]);
    assert!(matches!(
        ops[6],
        RenderOperation::RenderText { alignment: Alignment::Left { margin: Margin::Percent(25) }, .. }
    ));
    assert_eq!(texts(&ops[8]), vec![("thing".to_string(), TextStyle::default())]);
    assert!(matches!(ops[9], RenderOperation::RenderLineBreak));
}

#[test]
fn error_in_the_presentation_is_centered() {
    let ops = error_operations("oops", &ErrorSource::Presentation, 3);
    assert_eq!(ops.len(), 8);
    // 3 / 2 is below the 3 rows above the middle
    assert!(matches!(ops[2], RenderOperation::JumpToRow { index: 0 }));
    assert_eq!(texts(&ops[3])[0].0, "Error loading presentation");
    assert!(matches!(ops[6], RenderOperation::RenderText { alignment: Alignment::Center { .. }, .. }));
}

#[test]
fn render_error_prints_the_message() {
    let recorder = Recorder::default();
    let mut drawer = TerminalDrawer::new(recorder.clone()).expect("init failed");
    let window = WindowSize { rows: 30, columns: 80, height: 0, width: 0 };
    drawer.render_error("it broke", &ErrorSource::Slide(1), window).expect("render failed");
    let printed = recorder.printed.borrow();
    assert!(printed.contains(&"Error in slide 1".to_string()));
    assert!(printed.contains(&": ".to_string()));
    assert!(printed.contains(&"it broke".to_string()));
}

fn block(content: &str) -> RenderOperation {
    RenderOperation::RenderBlockLine(presenterm::operation::BlockLine {
        prefix: presenterm::text::Text::new("", TextStyle::default()),
        right_padding_length: 0,
        repeat_prefix_on_wrap: false,
        text: presenterm::text::WeightedLine::from_str(content),
        block_length: 10,
        alignment: Alignment::Left { margin: Margin::Fixed(0) },
        block_color: None,
    })
}

#[test]
fn overflow_validation() {
    let window = WindowSize { rows: 5, columns: 20, height: 0, width: 0 };
    let fits = vec![block("short"), RenderOperation::RenderLineBreak];
    let wide = vec![block("this text is far wider than twenty")];
    let tall = vec![RenderOperation::RenderLineBreak; 10];
    assert!(validate_overflows(&vec![fits.clone(), fits.clone()], window).is_ok());
    assert!(matches!(validate_overflows(&vec![fits.clone(), wide], window), Err(OverflowError::Horizontal(2))));
    assert!(matches!(validate_overflows(&vec![tall, fits.clone()], window), Err(OverflowError::Vertical(1))));
    assert!(matches!(
        validate_overflows(&vec![vec![RenderOperation::PopMargin]], window),
        Err(OverflowError::Render(presenterm::options::RenderError::PopDefaultScreen))
    ));
}
