use presenterm::diff::Modification;
use presenterm::operation::{BlockLine, RenderOperation};
use presenterm::presentation::{Presentation, Slide, SlideChunk};
use presenterm::style::{Color, Colors, TextStyle};
use presenterm::text::{Text, WeightedLine};
use presenterm::theme::{Alignment, Margin};

fn slide(operations: Vec<RenderOperation>) -> Slide {
    Slide::new(vec![SlideChunk::new(operations, Vec::new())], Vec::new())
}

fn text(content: &str) -> RenderOperation {
    RenderOperation::RenderText { line: WeightedLine::from_str(content), alignment: Alignment::default() }
}

#[test]
fn same_not_modified() {
    let operations = vec![
        RenderOperation::ClearScreen,
        RenderOperation::JumpToVerticalCenter,
        RenderOperation::JumpToBottomRow { index: 0 },
        RenderOperation::RenderLineBreak,
        RenderOperation::SetColors(Colors { background: None, foreground: None }),
        text("asd"),
        RenderOperation::RenderBlockLine(BlockLine {
            prefix: Text::new("", TextStyle::default()),
            right_padding_length: 0,
            repeat_prefix_on_wrap: false,
            text: WeightedLine::from_str(""),
            block_length: 42,
            alignment: Alignment::default(),
            block_color: None,
        }),
        RenderOperation::InitColumnLayout { columns: vec![1, 2] },
        RenderOperation::EnterColumn { column: 1 },
        RenderOperation::ExitLayout,
    ];
    for operation in &operations {
        assert!(!operation.is_content_different(operation));
    }
}

#[test]
fn different_text() {
    let lhs = text("foo");
    let rhs = text("bar");
    assert!(lhs.is_content_different(&rhs));
}

#[test]
fn different_text_alignment() {
    let lhs = RenderOperation::RenderText {
        line: WeightedLine::from_str("foo"),
        alignment: Alignment::Left { margin: Margin::Fixed(42) },
    };
    let rhs = RenderOperation::RenderText {
        line: WeightedLine::from_str("foo"),
        alignment: Alignment::Left { margin: Margin::Fixed(1337) },
    };
    assert!(!lhs.is_content_different(&rhs));
}

#[test]
fn different_colors() {
    let lhs = RenderOperation::SetColors(Colors { background: None, foreground: Some(Color::new(1, 2, 3)) });
    let rhs = RenderOperation::SetColors(Colors { background: None, foreground: Some(Color::new(3, 2, 1)) });
    assert!(!lhs.is_content_different(&rhs));
}

#[test]
fn different_column_layout() {
    let lhs = RenderOperation::InitColumnLayout { columns: vec![1, 2] };
    let rhs = RenderOperation::InitColumnLayout { columns: vec![1, 3] };
    assert!(lhs.is_content_different(&rhs));
}

#[test]
fn different_column() {
    let lhs = RenderOperation::EnterColumn { column: 0 };
    let rhs = RenderOperation::EnterColumn { column: 1 };
    assert!(lhs.is_content_different(&rhs));
}

#[test]
fn different_kinds_are_different() {
    assert!(RenderOperation::ClearScreen.is_content_different(&RenderOperation::RenderLineBreak));
    assert!(text("a").is_content_different(&RenderOperation::ExitLayout));
}

#[test]
fn no_slide_changes() {
    let presentation = Presentation::from_slides(vec![
        slide(vec![RenderOperation::ClearScreen]),
        slide(vec![RenderOperation::ClearScreen]),
        slide(vec![RenderOperation::ClearScreen]),
    ]);
    assert_eq!(presentation.find_first_modification(&presentation), None);
}

#[test]
fn slides_truncated() {
    let lhs = Presentation::from_slides(vec![
        slide(vec![RenderOperation::ClearScreen]),
        slide(vec![RenderOperation::ClearScreen]),
    ]);
    let rhs = Presentation::from_slides(vec![slide(vec![RenderOperation::ClearScreen])]);
    assert_eq!(lhs.find_first_modification(&rhs), Some(Modification { slide_index: 0, chunk_index: usize::MAX }));
}

#[test]
fn slides_added() {
    let lhs = Presentation::from_slides(vec![slide(vec![RenderOperation::ClearScreen])]);
    let rhs = Presentation::from_slides(vec![
        slide(vec![RenderOperation::ClearScreen]),
        slide(vec![RenderOperation::ClearScreen]),
    ]);
    assert_eq!(lhs.find_first_modification(&rhs), Some(Modification { slide_index: 1, chunk_index: 0 }));
}

#[test]
fn second_slide_content_changed() {
    let lhs = Presentation::from_slides(vec![
        slide(vec![RenderOperation::ClearScreen]),
        slide(vec![RenderOperation::ClearScreen]),
        slide(vec![RenderOperation::ClearScreen]),
    ]);
    let rhs = Presentation::from_slides(vec![
        slide(vec![RenderOperation::ClearScreen]),
        slide(vec![RenderOperation::JumpToVerticalCenter]),
        slide(vec![RenderOperation::ClearScreen]),
    ]);
    assert_eq!(lhs.find_first_modification(&rhs), Some(Modification { slide_index: 1, chunk_index: 0 }));
}

#[test]
fn presentation_changed_style() {
    let lhs = Presentation::from_slides(vec![slide(vec![RenderOperation::SetColors(Colors {
        background: None,
        foreground: Some(Color::new(255, 0, 0)),
    })])]);
    let rhs = Presentation::from_slides(vec![slide(vec![RenderOperation::SetColors(Colors {
        background: None,
        foreground: Some(Color::new(0, 0, 0)),
    })])]);
    assert_eq!(lhs.find_first_modification(&rhs), None);
}

#[test]
fn chunk_change() {
    let lhs = Presentation::from_slides(vec![
        slide(vec![RenderOperation::ClearScreen]),
        Slide::new(
            vec![
                SlideChunk::new(Vec::new(), Vec::new()),
                SlideChunk::new(vec![RenderOperation::ClearScreen], Vec::new()),
            ],
            Vec::new(),
        ),
    ]);
    let rhs = Presentation::from_slides(vec![
        slide(vec![RenderOperation::ClearScreen]),
        Slide::new(
            vec![
                SlideChunk::new(Vec::new(), Vec::new()),
                SlideChunk::new(vec![RenderOperation::ClearScreen, RenderOperation::ClearScreen], Vec::new()),
            ],
            Vec::new(),
        ),
    ]);
    assert_eq!(lhs.find_first_modification(&rhs), Some(Modification { slide_index: 1, chunk_index: 1 }));
    assert_eq!(rhs.find_first_modification(&lhs), Some(Modification { slide_index: 1, chunk_index: 1 }));
}

#[test]
fn removed_chunks_point_at_the_last_one_left() {
    let lhs = Presentation::from_slides(vec![Slide::new(
        vec![SlideChunk::new(Vec::new(), Vec::new()), SlideChunk::new(Vec::new(), Vec::new())],
        Vec::new(),
    )]);
    let rhs = Presentation::from_slides(vec![slide(Vec::new())]);
    assert_eq!(lhs.find_first_modification(&rhs), Some(Modification { slide_index: 0, chunk_index: 0 }));
    assert_eq!(rhs.find_first_modification(&lhs), Some(Modification { slide_index: 0, chunk_index: 1 }));
}
