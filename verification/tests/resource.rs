use presenterm::resource::{PathCache, Resources};
use presenterm::style::Colors;
use presenterm::theme::{Alignment, Margin, PaddingRect, PresentationTheme};

fn theme(footer_height: u16) -> PresentationTheme {
    PresentationTheme {
        extends: None,
        default_colors: Colors { background: None, foreground: None },
        default_margin: Margin::Fixed(1),
        paragraph_alignment: Alignment::Left { margin: Margin::Fixed(0) },
        code_padding: PaddingRect { horizontal: None, vertical: None },
        footer_height,
    }
}

#[test]
fn cached_snippet_is_found_by_the_same_path() {
    let mut resources = Resources::new("/presentation".to_string(), "/themes".to_string());
    assert_eq!(resources.cached_external_snippet("code.rs"), None);
    resources.cache_external_snippet("code.rs", "fn main() {}".to_string());
    assert_eq!(resources.cached_external_snippet("code.rs"), Some("fn main() {}".to_string()));
    assert_eq!(resources.cached_external_snippet("other.rs"), None);
    resources.cache_external_snippet("code.rs", "fn other() {}".to_string());
    assert_eq!(resources.cached_external_snippet("code.rs"), Some("fn other() {}".to_string()));
}

#[test]
fn resources_are_found_under_the_base_path() {
    let resources = Resources::new("/presentation".to_string(), "/themes".to_string());
    assert_eq!(resources.resource_path("code.rs"), "/presentation/code.rs");
    assert_eq!(resources.resource_path("/elsewhere/code.rs"), "/elsewhere/code.rs");
}

#[test]
fn absolute_and_relative_paths_to_one_file_share_the_cache() {
    let mut resources = Resources::new("/presentation".to_string(), "/themes".to_string());
    resources.cache_external_snippet("code.rs", "x".to_string());
    assert_eq!(resources.cached_external_snippet("/presentation/code.rs"), Some("x".to_string()));
}

#[test]
fn clearing_watches_forgets_snippets_and_keeps_themes() {
    let mut resources = Resources::new("/presentation".to_string(), "/themes".to_string());
    resources.cache_external_snippet("code.rs", "x".to_string());
    resources.cache_theme("theme.yaml", theme(3));
    resources.clear_watches();
    assert_eq!(resources.cached_external_snippet("code.rs"), None);
    assert_eq!(resources.cached_theme("theme.yaml").map(|t| t.footer_height), Some(3));
}

#[test]
fn clearing_forgets_themes_and_keeps_snippets() {
    let mut resources = Resources::new("/presentation".to_string(), "/themes".to_string());
    resources.cache_external_snippet("code.rs", "x".to_string());
    resources.cache_theme("theme.yaml", theme(3));
    resources.clear();
    assert!(resources.cached_theme("theme.yaml").is_none());
    assert_eq!(resources.cached_external_snippet("code.rs"), Some("x".to_string()));
}

#[test]
fn path_cache_replaces_a_value() {
    let mut cache: PathCache<u32> = PathCache::new();
    cache.insert("a".to_string(), 1);
    cache.insert("b".to_string(), 2);
    cache.insert("a".to_string(), 3);
    assert_eq!(cache.get("a"), Some(&3));
    assert_eq!(cache.get("b"), Some(&2));
    assert_eq!(cache.entries.len(), 2);
    cache.clear();
    assert_eq!(cache.get("a"), None);
}
