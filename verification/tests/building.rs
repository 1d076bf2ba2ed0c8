use presenterm::builder::{BuilderSettings, CommentCommand, ElementStyle, PresentationBuilder, SlidePrelude};
use presenterm::building::{BuildTheme, MarkdownElement, PresentationBuildError};
use presenterm::front_matter::{
    AuthorPositioning, FrontMatterError, IntroSlideTheme, IntroText, PresentationMetadata, PresentationThemeMetadata,
};
use presenterm::list::{ListItem, ListItemType};
use presenterm::operation::RenderOperation;
use presenterm::quote::{AlertStyle, AlertTheme, QuoteStyle};
use presenterm::style::{Colors, TextStyle};
use presenterm::text::WeightedLine;
use presenterm::theme::{Alignment, Margin};
use presenterm::theme_set::PresentationThemeSet;

fn themes() -> PresentationThemeSet<u8> {
    PresentationThemeSet::new(vec!["dark".to_string()])
}

fn builder() -> PresentationBuilder {
    let settings = BuilderSettings {
        pause_create_new_slide: false,
        font_size_supported: true,
        render_speaker_notes_only: false,
        command_prefix: String::new(),
        incremental_lists: false,
        pause_before_incremental_lists: false,
        pause_after_incremental_lists: false,
        list_item_newlines: 1,
        incremental_tables: false,
        pause_before_incremental_tables: false,
        pause_after_incremental_tables: false,
    };
    let prelude = SlidePrelude {
        colors: Colors::default(),
        margin: Margin::Fixed(0),
        footer_height: 1,
        paragraph_alignment: Alignment::Left { margin: Margin::Fixed(0) },
    };
    PresentationBuilder::new(settings, prelude)
}

fn element_style() -> ElementStyle {
    ElementStyle { alignment: Alignment::Left { margin: Margin::Fixed(0) }, inline_code_colors: Colors::default() }
}

fn alert_style() -> AlertStyle {
    AlertStyle { icon: "!".to_string(), title: "Note".to_string(), style: TextStyle::default() }
}

fn theme() -> BuildTheme {
    let intro_text = IntroText { style: TextStyle::default(), element: element_style() };
    BuildTheme {
        intro: IntroSlideTheme {
            title: intro_text,
            subtitle: intro_text,
            event: intro_text,
            location: intro_text,
            date: intro_text,
            author: intro_text,
            author_positioning: AuthorPositioning::PageBottom,
            footer: false,
        },
        paragraph: element_style(),
        table: element_style(),
        quote: QuoteStyle {
            prefix: "> ".to_string(),
            prefix_style: TextStyle::default(),
            base_colors: Colors::default(),
            alignment: Alignment::default(),
        },
        alert: AlertTheme {
            prefix: "| ".to_string(),
            base_colors: Colors::default(),
            alignment: Alignment::default(),
            note: alert_style(),
            tip: alert_style(),
            important: alert_style(),
            warning: alert_style(),
            caution: alert_style(),
        },
        code_colors: Colors::default(),
        default_colors: Colors::default(),
    }
}

fn metadata(author: Option<&str>, authors: &[&str]) -> PresentationMetadata {
    PresentationMetadata {
        title: Some("Title".to_string()),
        sub_title: None,
        event: None,
        location: None,
        date: None,
        author: author.map(String::from),
        authors: authors.iter().map(|a| a.to_string()).collect(),
        theme: PresentationThemeMetadata { name: None, path: None, overrides: None },
        options: None,
    }
}

fn comment(command: CommentCommand) -> MarkdownElement {
    MarkdownElement::Comment { text: String::new(), command: Some(command) }
}

#[test]
fn build_presentation() {
    let elements = vec![
        MarkdownElement::FrontMatter(metadata(Some("me"), &[])),
        MarkdownElement::Paragraph(vec![WeightedLine::from_str("hello")]),
        comment(CommentCommand::EndSlide),
        MarkdownElement::List(vec![ListItem {
            depth: 0,
            contents: WeightedLine::from_str("item"),
            item_type: ListItemType::Unordered,
        }]),
    ];
    let presentation = match builder().build_from_parsed(elements, &theme(), &themes(), false) {
        Ok(p) => p,
        Err(e) => panic!("{e:?}"),
    };
    // the introduction slide, then two more
    assert_eq!(presentation.slides.len(), 3);
    // the introduction slide has no footer; the others do
    assert!(presentation.slides[0].footer.is_empty());
    for slide in &presentation.slides[1..] {
        assert!(matches!(slide.footer[..], [RenderOperation::ExitLayout, RenderOperation::PopMargin]));
    }
    let second = &presentation.slides[1].chunks[0].operations;
    assert!(second.iter().any(|op| matches!(op, RenderOperation::RenderText { line, .. } if line.chunks[0].content == "hello")));
}

#[test]
fn build_always_has_a_slide() {
    let presentation = match builder().build_from_parsed(vec![], &theme(), &themes(), false) {
        Ok(p) => p,
        Err(e) => panic!("{e:?}"),
    };
    assert_eq!(presentation.slides.len(), 1);
}

#[test]
fn build_refuses_author_and_authors() {
    let elements = vec![MarkdownElement::FrontMatter(metadata(Some("me"), &["you"]))];
    assert!(matches!(
        builder().build_from_parsed(elements, &theme(), &themes(), false),
        Err(PresentationBuildError::FrontMatter(FrontMatterError::AuthorAndAuthors))
    ));
}

#[test]
fn build_refuses_text_outside_columns() {
    let elements = vec![
        comment(CommentCommand::InitColumnLayout(vec![1, 1])),
        MarkdownElement::Paragraph(vec![WeightedLine::from_str("hello")]),
    ];
    assert!(matches!(builder().build_from_parsed(elements, &theme(), &themes(), false), Err(PresentationBuildError::Build(_))));
}

#[test]
fn build_refuses_an_unknown_theme() {
    let mut m = metadata(None, &["me"]);
    m.theme.name = Some("nope".to_string());
    let elements = vec![MarkdownElement::FrontMatter(m)];
    assert!(matches!(
        builder().build_from_parsed(elements, &theme(), &themes(), false),
        Err(PresentationBuildError::FrontMatter(FrontMatterError::ThemeNotFound(name))) if name == "nope"
    ));
}

#[test]
fn build_refuses_a_bad_comment() {
    let elements = vec![MarkdownElement::Comment { text: "nothing i know".to_string(), command: None }];
    assert!(matches!(builder().build_from_parsed(elements, &theme(), &themes(), false), Err(PresentationBuildError::Build(_))));
}

#[test]
fn build_ignores_plain_comments_and_ends_slides() {
    let elements = vec![
        MarkdownElement::Paragraph(vec![WeightedLine::from_str("one")]),
        MarkdownElement::Comment { text: " vim: set x ".to_string(), command: None },
        comment(CommentCommand::EndSlide),
        MarkdownElement::Paragraph(vec![WeightedLine::from_str("two")]),
        comment(CommentCommand::EndSlide),
        MarkdownElement::Paragraph(vec![WeightedLine::from_str("three")]),
    ];
    let presentation = builder().build_from_parsed(elements, &theme(), &themes(), false).unwrap();
    assert_eq!(presentation.slides.len(), 3);
    for (slide, word) in presentation.slides.iter().zip(["one", "two", "three"]) {
        let ops = &slide.chunks[0].operations;
        assert!(ops.iter().any(|op| matches!(op, RenderOperation::RenderText { line, .. } if line.chunks[0].content == word)));
    }
}
