use presenterm::modals::{Border, IndexBuilder, ModalBuilder};
use presenterm::operation::{MarginProperties, RenderOperation};
use presenterm::properties::WindowSize;
use presenterm::style::{Color, Colors};
use presenterm::text::WeightedLine;
use presenterm::theme::Margin;

fn text_of(op: &RenderOperation) -> String {
    match op {
        RenderOperation::RenderText { line, .. } => line.chunks.iter().map(|c| c.content.as_str()).collect(),
        other => panic!("not text: {other:?}"),
    }
}

fn index(titles: &[&str]) -> presenterm::modals::IndexDrawer {
    let mut builder = IndexBuilder::new();
    for title in titles {
        builder.add_title(WeightedLine::from_str(title));
    }
    let modal = Colors { background: Some(Color::new(1, 2, 3)), foreground: None };
    let default = Colors { background: Some(Color::new(9, 9, 9)), foreground: Some(Color::new(8, 8, 8)) };
    let selection = Colors { background: None, foreground: Some(Color::new(200, 0, 0)) };
    builder.build(modal, default, selection)
}

fn window(rows: u16, columns: u16) -> WindowSize {
    WindowSize { rows, columns, height: rows * 10, width: columns * 10 }
}

#[test]
fn borders() {
    assert_eq!(Border::Top.edges(), ('┌', '┐'));
    assert_eq!(Border::Bottom.edges(), ('└', '┘'));
    let ops = Border::Separator.render_line(6);
    assert_eq!(ops.len(), 2);
    assert_eq!(text_of(&ops[0]), "├────┤");
    assert!(matches!(ops[1], RenderOperation::RenderLineBreak));
    // too short for any dash
    assert_eq!(text_of(&Border::Top.render_line(1)[0]), "┌┐");
}

#[test]
fn modal_rows_are_as_wide_as_the_modal() {
    let mut modal = ModalBuilder::new("Help");
    modal.content.push(WeightedLine::from_str("a line that is long"));
    modal.content.push(WeightedLine::from_str("short"));
    let content = modal.build(Colors::default());
    // the longest line and six more columns
    assert_eq!(content.content_width, 19 + 6);
    let heading: String = content.heading.build().chunks.iter().map(|c| c.content.as_str()).collect();
    assert_eq!(heading, format!("│{}Help{}│", " ".repeat(9), " ".repeat(10)));
    let rows: Vec<String> =
        content.content.iter().map(|r| r.build().chunks.iter().map(|c| c.content.as_str()).collect()).collect();
    assert_eq!(rows[0], "│  a line that is long  │");
    assert_eq!(rows[1], format!("│  short{}│", " ".repeat(16)));
}

#[test]
fn slide_index() {
    let drawer = index(&["Intro", "Body", "End"]);
    assert_eq!(drawer.content_width, 18);
    assert_eq!(drawer.colors.background, Some(Color::new(1, 2, 3)));
    assert_eq!(drawer.colors.foreground, Some(Color::new(8, 8, 8)));
    let ops = drawer.as_render_operations(window(10, 40), 1);
    assert_eq!(ops.len(), 11 + 2 * 3);
    assert!(matches!(
        ops[0],
        RenderOperation::ApplyMargin(MarginProperties { horizontal: Margin::Fixed(11), top: 0, bottom: 0 })
    ));
    assert!(matches!(ops[1], RenderOperation::JumpToRow { index: 1 }));
    assert!(matches!(ops[2], RenderOperation::SetColors(_)));
    let lines: Vec<String> = ops
        .iter()
        .filter(|op| matches!(op, RenderOperation::RenderText { .. }))
        .map(text_of)
        .collect();
    assert_eq!(
        lines,
        vec![
            "┌────────────────┐",
            "│     Slides     │",
            "├────────────────┤",
            "│  1: Intro      │",
            "│  2: Body       │",
            "│  3: End        │",
            "└────────────────┘",
        ]
    );
    // the current slide is highlighted
    match &ops[11] {
        RenderOperation::RenderText { line, .. } => {
            assert!(line.chunks[1].style.is_bold());
            assert_eq!(line.chunks[1].style.colors.foreground, Some(Color::new(200, 0, 0)));
            assert!(!line.chunks[0].style.is_bold());
        }
        _ => panic!("not text"),
    }
    match &ops[9] {
        RenderOperation::RenderText { line, .. } => assert!(!line.chunks[1].style.is_bold()),
        _ => panic!("not text"),
    }
}

#[test]
fn slide_index_scrolls_around_the_current_slide() {
    let titles: Vec<String> = (1..=20).map(|i| format!("s{i}")).collect();
    let titles: Vec<&str> = titles.iter().map(|s| s.as_str()).collect();
    let drawer = index(&titles);
    // eight rows fit on a screen of ten
    let ops = drawer.as_render_operations(window(10, 40), 15);
    assert_eq!(ops.len(), 11 + 2 * 8);
    let first_row = text_of(&ops[9]);
    assert!(first_row.starts_with("│  12: s12"), "{first_row}");
    // near the end, the last rows are shown
    let ops = drawer.as_render_operations(window(10, 40), 19);
    assert!(text_of(&ops[9]).starts_with("│  13: s13"));
    // numbers are padded to the widest one
    let ops = drawer.as_render_operations(window(10, 40), 0);
    assert!(text_of(&ops[9]).starts_with("│   1: s1 "));
}
