use presenterm::builder::{BuilderSettings, CommentCommand, LastElement, PresentationBuilder, SlidePrelude};
use presenterm::list::{ListItem, ListItemType};
use presenterm::operation::RenderOperation;
use presenterm::style::{Color, Colors, TextStyle};
use presenterm::text::{Text, WeightedLine};
use presenterm::theme::{Alignment, Margin};

fn settings(incremental_lists: bool) -> BuilderSettings {
    BuilderSettings {
        pause_create_new_slide: false,
        font_size_supported: true,
        render_speaker_notes_only: false,
        command_prefix: String::new(),
        incremental_lists,
        pause_before_incremental_lists: false,
        pause_after_incremental_lists: false,
        list_item_newlines: 1,
        incremental_tables: false,
        pause_before_incremental_tables: false,
        pause_after_incremental_tables: false,
    }
}

fn builder(incremental_lists: bool) -> PresentationBuilder {
    let prelude = SlidePrelude {
        colors: Colors::default(),
        margin: Margin::Fixed(0),
        footer_height: 0,
        paragraph_alignment: Alignment::Left { margin: Margin::Fixed(0) },
    };
    PresentationBuilder::new(settings(incremental_lists), prelude)
}

fn ordered(depth: u8, contents: &str, value: usize) -> ListItem {
    ListItem { depth, contents: WeightedLine::from_str(contents), item_type: ListItemType::OrderedPeriod(value) }
}

fn bullet(depth: u8, contents: &str) -> ListItem {
    ListItem { depth, contents: WeightedLine::from_str(contents), item_type: ListItemType::Unordered }
}

fn code_colors() -> Colors {
    Colors { background: Some(Color::new(9, 9, 9)), foreground: None }
}

fn text_lines(operations: &[RenderOperation]) -> Vec<String> {
    operations
        .iter()
        .filter_map(|op| match op {
            RenderOperation::RenderBlockLine(line) => {
                let mut text = line.prefix.content.clone();
                for chunk in &line.text.chunks {
                    text.push_str(&chunk.content);
                }
                Some(text)
            }
            _ => None,
        })
        .collect()
}

fn all_operations(b: &PresentationBuilder) -> Vec<RenderOperation> {
    let mut ops = Vec::new();
    for chunk in &b.slide_chunks {
        ops.extend(chunk.operations.iter().cloned());
    }
    ops.extend(b.chunk_operations.iter().cloned());
    ops
}

#[test]
fn ordered_list_with_pauses() {
    let mut b = builder(false);
    b.push_list(vec![ordered(0, "one", 1), ordered(1, "one_one", 1), ordered(1, "one_two", 2)], code_colors());
    b.push_pause();
    b.push_list(vec![ordered(0, "two", 2)], code_colors());
    let lines = text_lines(&all_operations(&b));
    let expected_lines = &["   1. one", "      1. one_one", "      2. one_two", "   2. two"];
    assert_eq!(lines, expected_lines);
    // the second list picks up the numbering of the first one's top level
    assert_eq!(b.slide_state.last_element, LastElement::List { last_index: 1 });
    // and the first chunk lost its trailing line break so that the items stay together
    let first = &b.slide_chunks[0].operations;
    assert!(matches!(first.last(), Some(RenderOperation::RenderBlockLine(_))));
}

#[test]
fn automatic_pauses() {
    let mut b = builder(false);
    b.process_comment_command_presentation_mode(CommentCommand::IncrementalLists(true)).unwrap();
    b.push_list(vec![bullet(0, "one"), bullet(1, "two"), bullet(0, "three")], code_colors());
    b.terminate_slide();
    assert_eq!(b.slides[0].chunks.len(), 3);
}

#[test]
fn incremental_lists_from_the_settings() {
    let mut b = builder(true);
    b.push_list(vec![bullet(0, "one"), bullet(0, "two")], code_colors());
    // one chunk for the first item, the second one still pending
    assert_eq!(b.slide_chunks.len(), 1);
    assert_eq!(text_lines(&b.chunk_operations), vec!["   •  two"]);
}

#[test]
fn list_items_share_a_block() {
    let mut b = builder(false);
    let code = ListItem {
        depth: 1,
        contents: WeightedLine::from_text(Text::new("x()", TextStyle::default().code())),
        item_type: ListItemType::Unordered,
    };
    b.push_list(vec![bullet(0, "a longer item"), code], code_colors());
    let blocks: Vec<_> = b
        .chunk_operations
        .iter()
        .filter_map(|op| match op {
            RenderOperation::RenderBlockLine(line) => Some(line.clone()),
            _ => None,
        })
        .collect();
    assert_eq!(blocks.len(), 2);
    // "   •  " and "a longer item"
    assert!(blocks.iter().all(|l| l.block_length == 19));
    assert!(blocks.iter().all(|l| !l.repeat_prefix_on_wrap && l.block_color.is_none()));
    assert_eq!(blocks[1].prefix.content, "      ◦  ");
    assert_eq!(blocks[1].text.chunks[0].style.colors, code_colors());
    // a line break after every item
    let breaks = b.chunk_operations.iter().filter(|op| matches!(op, RenderOperation::RenderLineBreak)).count();
    assert_eq!(breaks, 1 + 2);
    // only top level items are remembered
    assert_eq!(b.slide_state.last_element, LastElement::List { last_index: 0 });
}

#[test]
fn list_item_newlines_from_a_comment() {
    let mut b = builder(false);
    b.chunk_operations.clear();
    b.process_comment_command_presentation_mode(CommentCommand::ListItemNewlines(3)).unwrap();
    b.push_list(vec![bullet(0, "a")], code_colors());
    assert_eq!(b.chunk_operations.len(), 1 + 3);
}

#[test]
fn lists_in_larger_fonts() {
    let mut b = builder(false);
    b.process_comment_command_presentation_mode(CommentCommand::FontSize(2)).unwrap();
    b.push_list(vec![bullet(0, "ab")], code_colors());
    let block = b.chunk_operations.iter().find_map(|op| match op {
        RenderOperation::RenderBlockLine(line) => Some(line.clone()),
        _ => None,
    });
    let block = block.expect("no item");
    // two spaces, the bullet, two spaces and the text, twice as wide
    assert_eq!(block.block_length, 14);
    assert_eq!(block.prefix.style.size, 2);
    assert_eq!(block.text.chunks[0].style.size, 2);
}

#[test]
fn too_wide_lists_are_refused() {
    let mut b = builder(false);
    b.process_comment_command_presentation_mode(CommentCommand::FontSize(7)).unwrap();
    let wide = "x".repeat(10_000);
    let before = b.chunk_operations.len();
    assert!(!b.push_list_checked(vec![bullet(0, &wide)], code_colors()));
    assert_eq!(b.chunk_operations.len(), before);
    assert!(b.push_list_checked(vec![bullet(0, "fits")], code_colors()));
    assert_eq!(b.chunk_operations.len(), before + 2);
}
