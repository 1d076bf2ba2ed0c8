use presenterm::builder::{
    BuildError, BuilderSettings, CommentCommand, CommentOutcome, InvalidPresentation, LayoutState,
    PresentationBuilder, SlidePrelude,
};
use presenterm::operation::RenderOperation;
use presenterm::style::Colors;
use presenterm::theme::{Alignment, Margin};

fn builder(pause_create_new_slide: bool) -> PresentationBuilder {
    let settings = BuilderSettings {
        pause_create_new_slide,
        font_size_supported: true,
        render_speaker_notes_only: false,
        command_prefix: String::new(),
        incremental_lists: false,
        pause_before_incremental_lists: false,
        pause_after_incremental_lists: false,
        list_item_newlines: 1,
        incremental_tables: false,
        pause_before_incremental_tables: false,
        pause_after_incremental_tables: false,
    };
    let prelude = SlidePrelude {
        colors: Colors::default(),
        margin: Margin::Fixed(2),
        footer_height: 1,
        paragraph_alignment: Alignment::Left { margin: Margin::Fixed(0) },
    };
    PresentationBuilder::new(settings, prelude)
}

fn run(b: &mut PresentationBuilder, command: CommentCommand) -> Result<CommentOutcome, InvalidPresentation> {
    b.process_comment_command_presentation_mode(command)
}

#[test]
fn column_without_layout() {
    let mut b = builder(false);
    assert_eq!(run(&mut b, CommentCommand::Column(0)), Err(InvalidPresentation::NoLayout));
}

#[test]
fn entering_the_same_column_twice() {
    let mut b = builder(false);
    run(&mut b, CommentCommand::InitColumnLayout(vec![1])).unwrap();
    run(&mut b, CommentCommand::Column(0)).unwrap();
    assert_eq!(run(&mut b, CommentCommand::Column(0)), Err(InvalidPresentation::AlreadyInColumn));
}

#[test]
fn column_past_the_layout() {
    let mut b = builder(false);
    run(&mut b, CommentCommand::InitColumnLayout(vec![1])).unwrap();
    assert_eq!(run(&mut b, CommentCommand::Column(1)), Err(InvalidPresentation::ColumnIndexTooLarge));
}

#[test]
fn drawing_in_a_layout_outside_columns() {
    let mut b = builder(false);
    run(&mut b, CommentCommand::InitColumnLayout(vec![1])).unwrap();
    assert!(b.validate_last_operation().is_ok());
    b.chunk_operations.push(RenderOperation::RenderLineBreak);
    assert_eq!(b.validate_last_operation(), Err(BuildError::NotInsideColumn));
}

#[test]
fn drawing_in_a_column() {
    let mut b = builder(false);
    run(&mut b, CommentCommand::InitColumnLayout(vec![1, 2])).unwrap();
    run(&mut b, CommentCommand::Column(1)).unwrap();
    assert!(b.validate_last_operation().is_ok());
    assert_eq!(b.slide_state.layout, LayoutState::InColumn { column: 1, columns_count: 2 });
    run(&mut b, CommentCommand::Column(0)).unwrap();
    run(&mut b, CommentCommand::ResetLayout).unwrap();
    assert_eq!(b.slide_state.layout, LayoutState::Default);
}

#[test]
fn invalid_layouts_and_font_sizes() {
    let mut b = builder(false);
    assert_eq!(run(&mut b, CommentCommand::InitColumnLayout(vec![])), Err(InvalidPresentation::EmptyLayout));
    assert_eq!(run(&mut b, CommentCommand::InitColumnLayout(vec![1, 0])), Err(InvalidPresentation::ZeroSizedColumn));
    assert_eq!(run(&mut b, CommentCommand::FontSize(0)), Err(InvalidPresentation::InvalidFontSize));
    assert_eq!(run(&mut b, CommentCommand::FontSize(8)), Err(InvalidPresentation::InvalidFontSize));
    run(&mut b, CommentCommand::FontSize(3)).unwrap();
    assert_eq!(b.slide_font_size(), 3);
}

#[test]
fn pauses_and_slide_ends() {
    let mut b = builder(false);
    // The prelude: colors, clear, margin and a line break.
    assert_eq!(b.chunk_operations.len(), 4);
    run(&mut b, CommentCommand::Pause).unwrap();
    assert_eq!(b.slide_chunks.len(), 1);
    assert!(b.chunk_operations.is_empty());
    run(&mut b, CommentCommand::NewLines(2)).unwrap();
    run(&mut b, CommentCommand::EndSlide).unwrap();
    // The trailing chunk of only line breaks is dropped.
    assert_eq!(b.slides.len(), 1);
    assert_eq!(b.slides[0].chunks.len(), 1);
    assert_eq!(b.chunk_operations.len(), 4);
    assert!(b.slide_chunks.is_empty());
}

#[test]
fn skipped_slides_and_footers() {
    let mut b = builder(false);
    run(&mut b, CommentCommand::SkipSlide).unwrap();
    run(&mut b, CommentCommand::EndSlide).unwrap();
    assert!(b.slides.is_empty());
    run(&mut b, CommentCommand::NoFooter).unwrap();
    run(&mut b, CommentCommand::EndSlide).unwrap();
    assert_eq!(b.slides.len(), 1);
    assert_eq!(b.slides_without_footer, vec![0]);
}

#[test]
fn pause_creating_new_slides() {
    let mut b = builder(true);
    b.chunk_operations.push(RenderOperation::JumpToVerticalCenter);
    run(&mut b, CommentCommand::Pause).unwrap();
    assert_eq!(b.slides.len(), 1);
    assert_eq!(b.chunk_operations.len(), 5);
    assert!(matches!(b.chunk_operations[4], RenderOperation::JumpToVerticalCenter));
}

#[test]
fn include_and_snippet_output_are_left_to_the_caller() {
    let mut b = builder(false);
    assert_eq!(run(&mut b, CommentCommand::Include("other.md".into())), Ok(CommentOutcome::Include("other.md".into())));
    assert_eq!(
        run(&mut b, CommentCommand::SnippetOutput("id".into())),
        Ok(CommentOutcome::SnippetOutput("id".into()))
    );
}

#[test]
fn comments_that_are_not_commands() {
    let mut b = builder(false);
    assert_eq!(b.process_comment("  some\nnotes ", None), Ok(CommentOutcome::Done));
    assert_eq!(b.process_comment(" vim: set ft=markdown ", None), Ok(CommentOutcome::Done));
    assert_eq!(b.process_comment("{{{", None), Ok(CommentOutcome::Done));
    assert_eq!(b.process_comment("not a command", None), Err(InvalidPresentation::CommandParse));
    assert_eq!(b.command_text("  pause  "), "pause");
}

#[test]
fn command_prefix() {
    let mut b = builder(false);
    b.settings.command_prefix = "cmd:".into();
    assert_eq!(b.command_text(" cmd:pause "), "pause");
    assert_eq!(b.process_comment("a user comment", None), Ok(CommentOutcome::Done));
    assert_eq!(b.process_comment("cmd:nope", None), Err(InvalidPresentation::CommandParse));
}

#[test]
fn speaker_notes_mode() {
    let mut b = builder(false);
    b.settings.render_speaker_notes_only = true;
    let before = b.chunk_operations.len();
    assert_eq!(b.process_comment("", Some(CommentCommand::SpeakerNote("one\ntwo".into()))), Ok(CommentOutcome::Done));
    assert_eq!(b.chunk_operations.len(), before + 4);
    match &b.chunk_operations[before] {
        RenderOperation::RenderText { line, .. } => assert_eq!(line.chunks[0].content, "one"),
        other => panic!("unexpected {other:?}"),
    }
    // Other commands do nothing in this mode.
    assert_eq!(b.process_comment("", Some(CommentCommand::Column(3))), Ok(CommentOutcome::Done));
}

#[test]
fn html_layout_without_init() {
    let mut b = builder(false);
    assert!(b.process_comment("column: 0", Some(CommentCommand::Column(0))).is_err());
}

#[test]
fn html_already_in_column() {
    let mut b = builder(false);
    b.process_comment("column_layout: [1]", Some(CommentCommand::InitColumnLayout(vec![1]))).unwrap();
    b.process_comment("column: 0", Some(CommentCommand::Column(0))).unwrap();
    assert!(b.process_comment("column: 0", Some(CommentCommand::Column(0))).is_err());
}

#[test]
fn html_column_index_overflow() {
    let mut b = builder(false);
    b.process_comment("column_layout: [1]", Some(CommentCommand::InitColumnLayout(vec![1]))).unwrap();
    assert!(b.process_comment("column: 1", Some(CommentCommand::Column(1))).is_err());
}

#[test]
fn html_operation_without_enter_column() {
    let mut b = builder(false);
    b.process_comment("column_layout: [1]", Some(CommentCommand::InitColumnLayout(vec![1]))).unwrap();
    // the heading "# hi"
    b.chunk_operations.push(RenderOperation::RenderText {
        line: presenterm::text::WeightedLine::from_str("hi"),
        alignment: Alignment::Left { margin: Margin::Fixed(0) },
    });
    assert!(b.validate_last_operation().is_err());
}
