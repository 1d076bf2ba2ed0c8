use presenterm::operation::RenderOperation;
use presenterm::separator::separator_operations;
use presenterm::text::Text;

fn pieces(ops: &[RenderOperation]) -> Vec<String> {
    assert_eq!(ops.len(), 1);
    match &ops[0] {
        RenderOperation::RenderText { line, .. } => line.chunks.iter().map(|t| t.content.clone()).collect(),
        _ => panic!("not text"),
    }
}

#[test]
fn separator_without_heading_spans_the_screen() {
    assert_eq!(pieces(&separator_operations(&Vec::new(), 5)), vec!["—————".to_string()]);
}

#[test]
fn separator_centers_its_heading() {
    let heading = vec![Text::plain(" ["), Text::plain("finished"), Text::plain("] ")];
    assert_eq!(pieces(&separator_operations(&heading, 20)), vec!["————", " [", "finished", "] ", "————"]);
    // the extra dash goes on the right
    assert_eq!(pieces(&separator_operations(&heading, 21)), vec!["————", " [", "finished", "] ", "—————"]);
    // a heading wider than the screen gets no dashes
    assert_eq!(pieces(&separator_operations(&heading, 4)), vec!["", " [", "finished", "] ", ""]);
}
