use presenterm::highlighting::SnippetLanguage;
use presenterm::options::{OptionsConfig, PresentMode, PresentationBuilderOptions};

#[test]
fn default_builder_options() {
    let options = PresentationBuilderOptions::default();
    assert!(options.allow_mutations);
    assert_eq!(options.image_attribute_prefix, "image:");
    assert!(options.strict_front_matter_parsing);
    assert!(!options.incremental_lists);
    assert_eq!(options.list_item_newlines, 1);
    assert!(options.pause_before_incremental_lists);
    assert!(options.auto_render_languages.is_empty());
}

#[test]
fn merge_overrides_only_what_is_given() {
    let mut options = PresentationBuilderOptions::default();
    options.merge(OptionsConfig {
        implicit_slide_ends: Some(true),
        command_prefix: Some("cmd:".to_string()),
        image_attributes_prefix: None,
        incremental_lists: None,
        strict_front_matter_parsing: Some(false),
        end_slide_shorthand: None,
        auto_render_languages: vec![SnippetLanguage::Mermaid],
        list_item_newlines: Some(2),
    });
    assert_eq!(options.auto_render_languages, vec![SnippetLanguage::Mermaid]);
    assert_eq!(options.list_item_newlines, 2);
    options.merge(OptionsConfig {
        implicit_slide_ends: None,
        command_prefix: None,
        image_attributes_prefix: None,
        incremental_lists: None,
        strict_front_matter_parsing: None,
        end_slide_shorthand: None,
        auto_render_languages: vec![],
        list_item_newlines: None,
    });
    assert_eq!(options.auto_render_languages, vec![SnippetLanguage::Mermaid]);
    assert_eq!(options.list_item_newlines, 2);
    assert!(options.implicit_slide_ends);
    assert_eq!(options.command_prefix, "cmd:");
    assert_eq!(options.image_attribute_prefix, "image:");
    assert!(!options.strict_front_matter_parsing);
    assert!(!options.incremental_lists);
}

#[test]
fn modes() {
    assert!(PresentMode::Development.reloads_on_change());
    assert!(!PresentMode::Presentation.reloads_on_change());
}
