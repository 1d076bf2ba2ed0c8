use presenterm::builder::PresentationBuilder;

fn check(start: Option<usize>, end: Option<usize>, expected: &[&str]) {
    let code = ["a", "b", "c", "d", "e"].join("\n");
    let output = PresentationBuilder::filter_lines(code, start, end);
    let expected = expected.join("\n");
    assert_eq!(output, expected);
}

#[test]
fn filter_lines() {
    check(None, None, &["a", "b", "c", "d", "e"]);
    check(Some(1), None, &["a", "b", "c", "d", "e"]);
    check(Some(2), None, &["b", "c", "d", "e"]);
    check(Some(5), None, &["e"]);
    check(Some(6), None, &[]);
    check(None, Some(5), &["a", "b", "c", "d", "e"]);
    check(None, Some(4), &["a", "b", "c", "d"]);
    check(None, Some(1), &["a"]);
    check(None, Some(0), &[]);
    check(Some(2), Some(3), &["b", "c"]);
    check(Some(2), Some(1), &[]);
}

#[test]
fn filter_lines_drops_line_endings() {
    let code = "a\r\nb\nc\n".to_string();
    assert_eq!(PresentationBuilder::filter_lines(code.clone(), None, None), code);
    assert_eq!(PresentationBuilder::filter_lines(code.clone(), Some(1), None), "a\nb\nc");
    assert_eq!(PresentationBuilder::filter_lines(code, Some(0), Some(2)), "a\nb");
}

use presenterm::builder::InvalidPresentation;
use presenterm::highlighting::SnippetLanguage;
use presenterm::options::PresentationBuilderOptions;
use presenterm::snippet::{CodeExecution, CodePlan, ExecutionType, SnippetAttributes, SnippetExec, SnippetRepr};

fn attributes(representation: SnippetRepr, execution: SnippetExec, id: Option<&str>) -> SnippetAttributes {
    SnippetAttributes { representation, execution, id: id.map(|s| s.to_string()), line_numbers: false }
}

fn plan(
    a: SnippetAttributes,
    language: SnippetLanguage,
    theme_line_numbers: bool,
    options: &PresentationBuilderOptions,
) -> Result<(SnippetAttributes, CodePlan), InvalidPresentation> {
    PresentationBuilder::push_code(a, &language, theme_line_numbers, options)
}

#[test]
fn plain_snippet_is_shown_as_lines() {
    let options = PresentationBuilderOptions::default();
    let (a, p) = plan(attributes(SnippetRepr::Snippet, SnippetExec::Nothing, None), SnippetLanguage::Rust, false, &options)
        .unwrap();
    assert_eq!(p, CodePlan::Lines(CodeExecution::Nothing));
    assert!(!a.line_numbers);
}

#[test]
fn theme_line_numbers_are_shown() {
    let options = PresentationBuilderOptions::default();
    let (a, _) =
        plan(attributes(SnippetRepr::Snippet, SnippetExec::Nothing, None), SnippetLanguage::Rust, true, &options).unwrap();
    assert!(a.line_numbers);
}

#[test]
fn id_on_snippet_that_is_not_executed() {
    let options = PresentationBuilderOptions::default();
    let r = plan(attributes(SnippetRepr::Snippet, SnippetExec::Nothing, Some("foo")), SnippetLanguage::Rust, false, &options);
    assert_eq!(r.unwrap_err(), InvalidPresentation::SnippetIdNonExec);
    let r = plan(attributes(SnippetRepr::ExecReplace, SnippetExec::Exec, Some("foo")), SnippetLanguage::Rust, false, &options);
    assert_eq!(r.unwrap_err(), InvalidPresentation::SnippetIdNonExec);
}

#[test]
fn exec_with_id_runs_into_its_output() {
    let mut options = PresentationBuilderOptions::default();
    options.enable_snippet_execution = true;
    let (_, p) =
        plan(attributes(SnippetRepr::Snippet, SnippetExec::Exec, Some("foo")), SnippetLanguage::Bash, false, &options).unwrap();
    assert_eq!(p, CodePlan::Lines(CodeExecution::Run { automatic: false, has_id: true }));
}

#[test]
fn disabled_execution_leaves_a_note() {
    let mut options = PresentationBuilderOptions::default();
    options.enable_snippet_execution = false;
    let (_, p) =
        plan(attributes(SnippetRepr::Snippet, SnippetExec::Exec, None), SnippetLanguage::Bash, false, &options).unwrap();
    assert_eq!(p, CodePlan::Lines(CodeExecution::Disabled(ExecutionType::Execute)));
}

#[test]
fn disabled_replacement_leaves_a_note() {
    let mut options = PresentationBuilderOptions::default();
    options.enable_snippet_execution_replace = false;
    let (_, p) =
        plan(attributes(SnippetRepr::ExecReplace, SnippetExec::Exec, None), SnippetLanguage::Bash, false, &options).unwrap();
    assert_eq!(p, CodePlan::Lines(CodeExecution::Disabled(ExecutionType::ExecReplace)));
    let (_, p) =
        plan(attributes(SnippetRepr::Snippet, SnippetExec::AutoExec, None), SnippetLanguage::Bash, false, &options).unwrap();
    assert_eq!(p, CodePlan::Lines(CodeExecution::Disabled(ExecutionType::ExecReplace)));
}

#[test]
fn exec_replace_enabled_replaces_the_snippet() {
    let mut options = PresentationBuilderOptions::default();
    options.enable_snippet_execution_replace = true;
    let (_, p) =
        plan(attributes(SnippetRepr::ExecReplace, SnippetExec::Exec, None), SnippetLanguage::Bash, false, &options).unwrap();
    assert_eq!(p, CodePlan::ExecReplace);
    let (_, p) =
        plan(attributes(SnippetRepr::Snippet, SnippetExec::AutoExec, None), SnippetLanguage::Bash, false, &options).unwrap();
    assert_eq!(p, CodePlan::Lines(CodeExecution::Run { automatic: true, has_id: false }));
}

#[test]
fn auto_rendered_language_is_rendered() {
    let mut options = PresentationBuilderOptions::default();
    options.auto_render_languages = vec![SnippetLanguage::Mermaid, SnippetLanguage::Unknown("dot".to_string())];
    let (a, p) = plan(attributes(SnippetRepr::Snippet, SnippetExec::Nothing, None), SnippetLanguage::Mermaid, false, &options)
        .unwrap();
    assert_eq!(p, CodePlan::Render);
    assert_eq!(a.representation, SnippetRepr::Render);
    let (_, p) = plan(
        attributes(SnippetRepr::Snippet, SnippetExec::Nothing, None),
        SnippetLanguage::Unknown("dot".to_string()),
        false,
        &options,
    )
    .unwrap();
    assert_eq!(p, CodePlan::Render);
    let (_, p) = plan(attributes(SnippetRepr::Snippet, SnippetExec::Nothing, None), SnippetLanguage::Rust, false, &options)
        .unwrap();
    assert_eq!(p, CodePlan::Lines(CodeExecution::Nothing));
}

#[test]
fn validate_and_acquire_terminal() {
    let mut options = PresentationBuilderOptions::default();
    options.enable_snippet_execution = true;
    let (_, p) =
        plan(attributes(SnippetRepr::Snippet, SnippetExec::Validate, None), SnippetLanguage::Bash, false, &options).unwrap();
    assert_eq!(p, CodePlan::Lines(CodeExecution::Validate));
    let (_, p) = plan(attributes(SnippetRepr::Snippet, SnippetExec::AcquireTerminal, None), SnippetLanguage::Bash, false, &options)
        .unwrap();
    assert_eq!(p, CodePlan::Lines(CodeExecution::AcquireTerminal));
}

use presenterm::snippet::SnippetIds;

#[test]
fn snippet_ids_are_unique() {
    let mut ids = SnippetIds::default();
    assert_eq!(ids.register("foo".to_string()), Ok(()));
    assert_eq!(ids.register("bar".to_string()), Ok(()));
    assert_eq!(ids.register("foo".to_string()), Err(InvalidPresentation::SnippetAlreadyExists));
    assert!(ids.contains("bar"));
    assert!(!ids.contains("baz"));
    assert_eq!(ids.ids, vec!["foo".to_string(), "bar".to_string()]);
}
