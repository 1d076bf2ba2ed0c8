use presenterm::builder::{BuilderSettings, PresentationBuilder, SlidePrelude};
use presenterm::operation::{BlockLine, RenderOperation};
use presenterm::quote::{AlertStyle, AlertTheme, AlertType, QuoteStyle};
use presenterm::style::{Color, Colors, TextStyle};
use presenterm::text::{Text, WeightedLine};
use presenterm::theme::{Alignment, Margin};

fn builder() -> PresentationBuilder {
    let settings = BuilderSettings {
        pause_create_new_slide: false,
        font_size_supported: true,
        render_speaker_notes_only: false,
        command_prefix: String::new(),
        incremental_lists: false,
        pause_before_incremental_lists: false,
        pause_after_incremental_lists: false,
        list_item_newlines: 1,
        incremental_tables: false,
        pause_before_incremental_tables: false,
        pause_after_incremental_tables: false,
    };
    let prelude = SlidePrelude {
        colors: Colors::default(),
        margin: Margin::Fixed(0),
        footer_height: 0,
        paragraph_alignment: Alignment::Left { margin: Margin::Fixed(0) },
    };
    let mut b = PresentationBuilder::new(settings, prelude);
    b.chunk_operations.clear();
    b
}

fn red() -> Color {
    Color::new(255, 0, 0)
}

fn quote_style() -> QuoteStyle {
    QuoteStyle {
        prefix: "▍ ".to_string(),
        prefix_style: TextStyle::default().fg_color(Color::new(0, 0, 255)),
        base_colors: Colors { background: Some(red()), foreground: None },
        alignment: Alignment::Left { margin: Margin::Fixed(1) },
    }
}

fn code_colors() -> Colors {
    Colors { background: None, foreground: Some(Color::new(0, 255, 0)) }
}

fn default_colors() -> Colors {
    Colors { background: Some(Color::new(1, 1, 1)), foreground: Some(Color::new(2, 2, 2)) }
}

fn block_lines(ops: &[RenderOperation]) -> Vec<&BlockLine> {
    ops.iter()
        .filter_map(|op| match op {
            RenderOperation::RenderBlockLine(line) => Some(line),
            _ => None,
        })
        .collect()
}

fn contents(line: &BlockLine) -> Vec<String> {
    line.text.chunks.iter().map(|t| t.content.clone()).collect()
}

#[test]
fn block_quote_lines_share_one_block() {
    let mut b = builder();
    let lines = vec![WeightedLine::from_str("hi"), WeightedLine::from_str("bye")];
    b.push_block_quote(&lines, &quote_style(), code_colors(), default_colors());
    let ops = &b.chunk_operations;
    assert_eq!(ops.len(), 5);
    assert!(matches!(ops[1], RenderOperation::RenderLineBreak));
    assert!(matches!(ops[3], RenderOperation::RenderLineBreak));
    assert!(matches!(ops[4], RenderOperation::SetColors(c) if c == default_colors()));
    let quoted = block_lines(ops);
    assert_eq!(quoted.len(), 2);
    for line in &quoted {
        // the widest line, "bye", and the prefix
        assert_eq!(line.block_length, 5);
        assert_eq!(line.prefix.content, "▍ ");
        assert_eq!(line.prefix.style.colors.foreground, Some(Color::new(0, 0, 255)));
        assert!(line.repeat_prefix_on_wrap);
        assert_eq!(line.right_padding_length, 0);
        assert_eq!(line.block_color, Some(red()));
        assert_eq!(line.alignment, Alignment::Left { margin: Margin::Fixed(1) });
        assert_eq!(line.text.chunks[0].style.colors, quote_style().base_colors);
    }
    assert_eq!(contents(quoted[0]), vec!["hi"]);
    assert_eq!(contents(quoted[1]), vec!["bye"]);
}

#[test]
fn quoted_code_and_colored_text() {
    let mut b = builder();
    let blue = Colors { background: None, foreground: Some(Color::new(0, 0, 9)) };
    let line = WeightedLine {
        chunks: vec![
            Text::new("code", TextStyle::default().code()),
            Text::new("blue", TextStyle::default().colors(blue)),
            Text::plain("plain"),
        ],
    };
    b.push_quoted_text(&vec![line], &quote_style(), code_colors(), default_colors());
    let quoted = block_lines(&b.chunk_operations);
    let chunks = &quoted[0].text.chunks;
    assert_eq!(chunks[0].style.colors, code_colors());
    assert_eq!(chunks[1].style.colors, blue);
    assert_eq!(chunks[2].style.colors, quote_style().base_colors);
    assert!(chunks.iter().all(|c| c.style.size == 1));
}

#[test]
fn empty_quote_only_restores_colors() {
    let mut b = builder();
    b.push_block_quote(&Vec::new(), &quote_style(), code_colors(), default_colors());
    assert_eq!(b.chunk_operations.len(), 1);
    assert!(matches!(b.chunk_operations[0], RenderOperation::SetColors(c) if c == default_colors()));
}

fn alert_style(icon: &str, title: &str) -> AlertStyle {
    AlertStyle { icon: icon.to_string(), title: title.to_string(), style: TextStyle::default().bold() }
}

fn alert_theme() -> AlertTheme {
    AlertTheme {
        prefix: "┃ ".to_string(),
        base_colors: Colors::default(),
        alignment: Alignment::Left { margin: Margin::Fixed(0) },
        note: alert_style("󰋽", "Note"),
        tip: alert_style("", "Tip"),
        important: alert_style("", "Important"),
        warning: alert_style("", "Warning"),
        caution: alert_style("󰳦", "Caution"),
    }
}

#[test]
fn alert_starts_with_its_title() {
    let mut b = builder();
    let lines = vec![WeightedLine::from_str("careful")];
    b.push_alert(AlertType::Warning, None, &lines, &alert_theme(), code_colors(), default_colors());
    let quoted = block_lines(&b.chunk_operations);
    assert_eq!(quoted.len(), 3);
    assert_eq!(contents(quoted[0]), vec![" Warning"]);
    assert!(quoted[0].text.chunks[0].style.is_bold());
    assert_eq!(contents(quoted[1]), vec![""]);
    assert_eq!(contents(quoted[2]), vec!["careful"]);
    // the prefix takes the alert's style
    assert!(quoted[2].prefix.style.is_bold());
    assert_eq!(quoted[2].prefix.content, "┃ ");
}

#[test]
fn alert_with_a_given_title() {
    let mut b = builder();
    b.push_alert(
        AlertType::Note,
        Some("Read this".to_string()),
        &Vec::new(),
        &alert_theme(),
        code_colors(),
        default_colors(),
    );
    let quoted = block_lines(&b.chunk_operations);
    assert_eq!(quoted.len(), 2);
    assert_eq!(contents(quoted[0]), vec!["󰋽 Read this"]);
}
