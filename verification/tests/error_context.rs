use presenterm::error_context::{ErrorContextBuilder, LineColumn, SourcePosition};

fn into_lines(builder: ErrorContextBuilder<'_>) -> Vec<String> {
    let error = builder.build();
    error.lines().map(ToString::to_string).collect()
}

#[test]
fn position() {
    let lines = into_lines(
        ErrorContextBuilder::new("foo\nbear\ntar", "'a' not allowed")
            .position(SourcePosition { start: LineColumn { line: 2, column: 3 } }),
    );
    let expected = &["  | ", "2 | bear", "  |   ^ 'a' not allowed"];
    assert_eq!(&lines, expected);
}

#[test]
fn no_position() {
    let lines = into_lines(ErrorContextBuilder::new("bear", "'b' not allowed"));
    let expected = &[" | ", " | bear", " | ^ 'b' not allowed"];
    assert_eq!(&lines, expected);
}

#[test]
fn column() {
    let lines = into_lines(ErrorContextBuilder::new("bear", "'e' not allowed").column(2));
    let expected = &[" | ", " | bear", " |  ^ 'e' not allowed"];
    assert_eq!(&lines, expected);
}

#[test]
fn error_context_line_past_the_end_shows_nothing() {
    let text = ErrorContextBuilder::new("foo", "bad")
        .position(SourcePosition { start: LineColumn { line: 12, column: 1 } })
        .build();
    assert_eq!(text, "   | \n12 | \n   | ^ bad");
}

#[test]
fn error_context_strips_carriage_returns() {
    let text = ErrorContextBuilder::new("a\r\nbc\r\n", "x")
        .position(SourcePosition { start: LineColumn { line: 2, column: 2 } })
        .build();
    assert_eq!(text, "  | \n2 | bc\n  |  ^ x");
}
