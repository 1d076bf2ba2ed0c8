use presenterm::error_context::{LineColumn, SourcePosition};
use presenterm::sources::{MarkdownSourceError, MarkdownSources};

#[test]
fn paths() {
    let mut sources = MarkdownSources::default();
    assert_eq!(sources.current_base_path(), ".");

    {
        sources.enter("foo.md").expect("enter failed");
        assert_eq!(sources.current_base_path(), "");

        {
            sources.enter("inner/bar.md").expect("enter failed");
            assert_eq!(sources.current_base_path(), "inner");
            sources.exit();
        }

        assert_eq!(sources.current_base_path(), "");
        sources.exit();
    }
}

#[test]
fn include_cycle() {
    let mut sources = MarkdownSources::new();
    sources.enter("a/b.md").expect("enter failed");
    sources.enter("c.md").expect("enter failed");
    match sources.enter("a/b.md") {
        Err(MarkdownSourceError::IncludeCycle(path)) => assert_eq!(path, "a/b.md"),
        other => panic!("unexpected: {other:?}"),
    }
    assert_eq!(sources.include_paths.len(), 2);
}

#[test]
fn no_parent() {
    let mut sources = MarkdownSources::new();
    assert!(matches!(sources.enter("/"), Err(MarkdownSourceError::NoParent)));
    assert!(sources.include_paths.is_empty());
}

#[test]
fn enter_then_exit_restores() {
    let mut sources = MarkdownSources::new();
    sources.enter("x/y.md").unwrap();
    let before = sources.include_paths.clone();
    sources.enter("z/w.md").unwrap();
    sources.exit();
    assert_eq!(sources.include_paths, before);
}

#[test]
fn resolve_position() {
    let mut sources = MarkdownSources::new();
    let position = SourcePosition { start: LineColumn { line: 3, column: 4 } };
    assert_eq!(sources.resolve_source_position(position).file, ".");
    sources.enter("dir/file.md").unwrap();
    let resolved = sources.resolve_source_position(position);
    assert_eq!(resolved.file, "dir/file.md");
    assert_eq!(resolved.source_position.start.line, 3);
}
