use presenterm::builder::{BuilderSettings, ElementStyle, PresentationBuilder, SlidePrelude};
use presenterm::front_matter::{
    select_theme, AuthorPositioning, FrontMatterError, IntroSlideTheme, IntroText, PresentationMetadata,
    PresentationThemeMetadata, ThemeOverrides, ThemeSelection,
};
use presenterm::operation::RenderOperation;
use presenterm::options::OptionsConfig;
use presenterm::style::{Colors, TextStyle};
use presenterm::theme::{Alignment, Margin};
use presenterm::theme_set::PresentationThemeSet;

fn builder() -> PresentationBuilder {
    let settings = BuilderSettings {
        pause_create_new_slide: false,
        font_size_supported: true,
        render_speaker_notes_only: false,
        command_prefix: String::new(),
        incremental_lists: false,
        pause_before_incremental_lists: false,
        pause_after_incremental_lists: false,
        list_item_newlines: 1,
        incremental_tables: false,
        pause_before_incremental_tables: false,
        pause_after_incremental_tables: false,
    };
    let prelude = SlidePrelude {
        colors: Colors::default(),
        margin: Margin::Fixed(0),
        footer_height: 1,
        paragraph_alignment: Alignment::Left { margin: Margin::Fixed(0) },
    };
    PresentationBuilder::new(settings, prelude)
}

fn text(style: TextStyle) -> IntroText {
    IntroText {
        style,
        element: ElementStyle {
            alignment: Alignment::Center { minimum_margin: Margin::Fixed(0), minimum_size: 0 },
            inline_code_colors: Colors::default(),
        },
    }
}

fn theme(positioning: AuthorPositioning, footer: bool) -> IntroSlideTheme {
    IntroSlideTheme {
        title: text(TextStyle::default().bold()),
        subtitle: text(TextStyle::default()),
        event: text(TextStyle::default()),
        location: text(TextStyle::default()),
        date: text(TextStyle::default()),
        author: text(TextStyle::default().italics()),
        author_positioning: positioning,
        footer,
    }
}

fn metadata() -> PresentationMetadata {
    PresentationMetadata {
        title: Some("Beep\nBoop boop".to_string()),
        sub_title: None,
        event: Some("RustConf".to_string()),
        location: None,
        date: Some("today".to_string()),
        author: None,
        authors: vec!["alice".to_string(), "bob".to_string()],
        theme: PresentationThemeMetadata { name: None, path: None, overrides: None },
        options: None,
    }
}

fn describe(ops: &[RenderOperation]) -> Vec<String> {
    ops.iter()
        .map(|op| match op {
            RenderOperation::RenderText { line, .. } => {
                line.chunks.iter().map(|c| c.content.clone()).collect::<Vec<_>>().join("")
            }
            RenderOperation::RenderLineBreak => "\\n".to_string(),
            RenderOperation::JumpToVerticalCenter => "center".to_string(),
            RenderOperation::JumpToBottomRow { index } => format!("bottom {index}"),
            other => format!("{other:?}").chars().take(5).collect(),
        })
        .collect()
}

#[test]
fn intro_slide() {
    let mut b = builder();
    b.chunk_operations.clear();
    b.push_intro_slide(&metadata(), &theme(AuthorPositioning::PageBottom, false));
    assert_eq!(b.slides.len(), 1);
    assert_eq!(b.slides_without_footer, vec![0]);
    let ops = &b.slides[0].chunks[0].operations;
    assert_eq!(
        describe(ops),
        vec![
            "center", "Beep", "\\n", "Boop boop", "\\n", "\\n", "\\n", "RustConf", "\\n", "today", "\\n", "bottom 1",
            "alice", "\\n", "bob", "\\n"
        ]
    );
    match &ops[1] {
        RenderOperation::RenderText { line, .. } => assert!(line.chunks[0].style.is_bold()),
        _ => panic!("not text"),
    }
}

#[test]
fn intro_slide_authors_below_title() {
    let mut b = builder();
    b.chunk_operations.clear();
    let mut m = metadata();
    m.event = None;
    m.date = None;
    m.authors = vec![];
    m.author = Some("carol".to_string());
    b.push_intro_slide(&m, &theme(AuthorPositioning::BelowTitle, true));
    assert!(b.slides_without_footer.is_empty());
    let ops = &b.slides[0].chunks[0].operations;
    assert_eq!(describe(ops), vec!["center", "Beep", "\\n", "Boop boop", "\\n", "\\n", "\\n", "\\n", "carol", "\\n"]);
}

#[test]
fn front_matter_with_author_and_authors() {
    let mut b = builder();
    let mut m = metadata();
    m.author = Some("carol".to_string());
    let before = b.chunk_operations.len();
    assert_eq!(
        b.process_front_matter(&m, &theme(AuthorPositioning::PageBottom, true), &themes(), false),
        Err(FrontMatterError::AuthorAndAuthors)
    );
    assert_eq!(b.chunk_operations.len(), before);
    assert!(b.slides.is_empty());
}

#[test]
fn front_matter_without_presentation_details() {
    let mut b = builder();
    let m = PresentationMetadata {
        title: None,
        sub_title: None,
        event: None,
        location: None,
        date: None,
        author: None,
        authors: vec![],
        theme: PresentationThemeMetadata { name: Some("dark".to_string()), path: None, overrides: None },
        options: None,
    };
    assert!(!m.has_frontmatter());
    let before = b.chunk_operations.len();
    assert_eq!(b.process_front_matter(&m, &theme(AuthorPositioning::PageBottom, true), &themes(), false), Ok(ThemeSelection::Named("dark".to_string())));
    assert_eq!(b.chunk_operations.len(), before);
    assert!(b.slides.is_empty());
    assert!(metadata().has_frontmatter());
}

#[test]
fn front_matter_starts_the_intro_slide_with_the_prelude() {
    let mut b = builder();
    b.chunk_operations.clear();
    assert_eq!(b.process_front_matter(&metadata(), &theme(AuthorPositioning::PageBottom, true), &themes(), false), Ok(ThemeSelection::Current));
    let ops = &b.slides[0].chunks[0].operations;
    assert!(matches!(ops[0], RenderOperation::SetColors(_)));
    assert!(matches!(ops[1], RenderOperation::ClearScreen));
    assert!(matches!(ops[4], RenderOperation::JumpToVerticalCenter));
}

fn themes() -> PresentationThemeSet<u8> {
    let mut set = PresentationThemeSet::new(vec!["dark".to_string(), "light".to_string()]);
    set.insert_custom("mine", None, 1);
    set
}

fn theme_metadata(name: Option<&str>, path: Option<&str>, extends: Option<&str>) -> PresentationThemeMetadata {
    PresentationThemeMetadata {
        name: name.map(String::from),
        path: path.map(String::from),
        overrides: Some(ThemeOverrides { extends: extends.map(String::from) }),
    }
}

#[test]
fn theme_selection() {
    let set = themes();
    assert_eq!(
        select_theme(&set, &theme_metadata(Some("dark"), None, None), false),
        Ok(ThemeSelection::Named("dark".to_string()))
    );
    assert_eq!(
        select_theme(&set, &theme_metadata(Some("mine"), None, None), false),
        Ok(ThemeSelection::Named("mine".to_string()))
    );
    assert_eq!(
        select_theme(&set, &theme_metadata(None, Some("t.yaml"), None), false),
        Ok(ThemeSelection::Path("t.yaml".to_string()))
    );
    assert_eq!(select_theme(&set, &theme_metadata(None, None, None), false), Ok(ThemeSelection::Current));
    // the default theme is forced: names and paths are ignored
    assert_eq!(select_theme(&set, &theme_metadata(Some("nope"), None, None), true), Ok(ThemeSelection::Current));
}

#[test]
fn theme_selection_errors() {
    let set = themes();
    assert_eq!(
        select_theme(&set, &theme_metadata(Some("dark"), Some("t.yaml"), None), false),
        Err(FrontMatterError::ThemeNameAndPath)
    );
    assert_eq!(
        select_theme(&set, &theme_metadata(Some("nope"), None, None), false),
        Err(FrontMatterError::ThemeNotFound("nope".to_string()))
    );
    assert_eq!(
        select_theme(&set, &theme_metadata(Some("dark"), None, Some("light")), false),
        Err(FrontMatterError::OverridesExtend("light".to_string()))
    );
}

#[test]
fn front_matter_refuses_the_themes_there_cant_be() {
    let mut b = builder();
    let mut m = metadata();
    m.theme = theme_metadata(Some("dark"), Some("t.yaml"), None);
    let r = b.process_front_matter(&m, &theme(AuthorPositioning::PageBottom, true), &themes(), false);
    assert_eq!(r, Err(FrontMatterError::ThemeNameAndPath));
    m.theme = theme_metadata(Some("nope"), None, None);
    let r = b.process_front_matter(&m, &theme(AuthorPositioning::PageBottom, true), &themes(), false);
    assert_eq!(r, Err(FrontMatterError::ThemeNotFound("nope".to_string())));
    m.theme = theme_metadata(None, None, Some("dark"));
    let r = b.process_front_matter(&m, &theme(AuthorPositioning::PageBottom, true), &themes(), false);
    assert_eq!(r, Err(FrontMatterError::OverridesExtend("dark".to_string())));
    assert!(b.slides.is_empty());
}

#[test]
fn front_matter_options_replace_the_settings() {
    let mut b = builder();
    let mut m = metadata();
    m.options = Some(OptionsConfig {
        implicit_slide_ends: None,
        command_prefix: Some("cmd:".to_string()),
        image_attributes_prefix: None,
        incremental_lists: Some(true),
        strict_front_matter_parsing: None,
        end_slide_shorthand: None,
        auto_render_languages: vec![],
        list_item_newlines: None,
    });
    let r = b.process_front_matter(&m, &theme(AuthorPositioning::PageBottom, true), &themes(), false);
    assert_eq!(r, Ok(ThemeSelection::Current));
    assert_eq!(b.settings.command_prefix, "cmd:");
    assert!(b.settings.incremental_lists);
    assert_eq!(b.settings.list_item_newlines, 1);
}

#[test]
fn many_authors_below_the_title_are_drawn() {
    let mut b = builder();
    b.chunk_operations.clear();
    let mut m = metadata();
    m.authors = (0..65536).map(|i| i.to_string()).collect();
    let r = b.process_front_matter(&m, &theme(AuthorPositioning::BelowTitle, true), &themes(), false);
    assert_eq!(r, Ok(ThemeSelection::Current));
    assert_eq!(b.slides.len(), 1);
}
