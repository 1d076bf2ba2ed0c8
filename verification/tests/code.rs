use presenterm::code::{CodePreparer, NumberPadder, Snippet};
use presenterm::theme::PaddingRect;

#[test]
fn code_with_line_numbers() {
    let total_lines = 11;
    let input_lines = "hi\n".repeat(total_lines);
    let code = Snippet { contents: input_lines, line_numbers: true };
    let lines = CodePreparer::new(PaddingRect::default()).prepare(&code);
    assert_eq!(lines.len(), total_lines);

    let mut lines = lines.into_iter().enumerate();
    // 0..=9
    for (index, line) in lines.by_ref().take(9) {
        let line_number = index + 1;
        assert_eq!(&line.prefix, &format!(" {line_number} "));
    }
    // 10..
    for (index, line) in lines {
        let line_number = index + 1;
        assert_eq!(&line.prefix, &format!("{line_number} "));
    }
}

#[test]
fn padding_adds_empty_lines_and_columns() {
    let code = Snippet { contents: "a\nb".to_string(), line_numbers: false };
    let padding = PaddingRect { horizontal: Some(2), vertical: Some(1) };
    let lines = CodePreparer::new(padding).prepare(&code);
    assert_eq!(lines.len(), 4);
    assert_eq!(lines[0].code, "\n");
    assert_eq!(lines[0].line_number, None);
    assert_eq!(lines[1].prefix, "  ");
    assert_eq!(lines[1].code, "a\n");
    assert_eq!(lines[1].suffix, "  ");
    assert_eq!(lines[1].line_number, Some(1));
    assert_eq!(lines[2].code, "b\n");
    assert_eq!(lines[2].line_number, Some(2));
    assert_eq!(lines[3].code, "\n");
}

#[test]
fn empty_snippet_has_no_lines() {
    let code = Snippet { contents: String::new(), line_numbers: true };
    assert!(CodePreparer::new(PaddingRect::default()).prepare(&code).is_empty());
}

#[test]
fn number_padder() {
    let padder = NumberPadder::new(123);
    assert_eq!(padder.width, 3);
    assert_eq!(padder.pad_right(7), "  7");
    assert_eq!(padder.pad_right(42), " 42");
    assert_eq!(padder.pad_right(123), "123");
}

#[test]
fn code_line_width() {
    let code = Snippet { contents: "abc".to_string(), line_numbers: true };
    let lines = CodePreparer::new(PaddingRect { horizontal: Some(1), vertical: None }).prepare(&code);
    // The prefix, the code with its line feed, which takes a column, and the suffix.
    assert_eq!(lines[0].width(), 3 + 4 + 1);
}
