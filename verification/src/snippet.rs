//! Code snippets: how one is shown and executed, and picking the lines of an external one.
use crate::builder::{InvalidPresentation, PresentationBuilder};
use crate::highlighting::{same_language, same_language_spec, SnippetLanguage};
use crate::options::PresentationBuilderOptions;
use crate::text_util::{all_lines, lines_of, str_chars, str_eq, string_from_chars};
use vstd::prelude::*;

verus! {

/// Lines joined with a line feed between every two of them.
pub open spec fn joined(lines: Seq<Seq<char>>) -> Seq<char>
    decreases lines.len(),
{
    if lines.len() == 0 {
        Seq::empty()
    } else if lines.len() == 1 {
        lines[0]
    } else {
        joined(lines.drop_last()) + seq!['\n'] + lines.last()
    }
}

/// The smaller of two numbers.
pub open spec fn smaller(a: int, b: int) -> int {
    if a < b {
        a
    } else {
        b
    }
}

/// The lines of some code from line `start` to line `end`, both counted from 1 and both
/// included; without a start, from the first line, and without an end, to the last one. With
/// neither, the code as it is; otherwise the lines joined by line feeds.
pub open spec fn filtered_lines(code: Seq<char>, start: Option<usize>, end: Option<usize>) -> Seq<
    char,
> {
    let lines = lines_of(code);
    let n = lines.len() as int;
    match (start, end) {
        (None, None) => code,
        (None, Some(e)) => joined(lines.take(smaller(e as int, n))),
        (Some(s), None) => {
            let from = smaller(if s > 0 { s - 1 } else { 0 }, n);
            joined(lines.skip(from))
        },
        (Some(s), Some(e)) => {
            let first = if s > 0 { s - 1 } else { 0 };
            let from = smaller(first, n);
            let count = if e > first { e - first } else { 0 };
            joined(lines.skip(from).take(smaller(count, n - from)))
        },
    }
}

impl PresentationBuilder {
    /// The lines of some code from line `start` to line `end`, both counted from 1 and both
    /// included, as `filtered_lines` says.
    pub fn filter_lines(code: String, start: Option<usize>, end: Option<usize>) -> (s: String)
        ensures
            s@ == filtered_lines(code@, start, end),
    {
        if start.is_none() && end.is_none() {
            return code;
        }
        let chars = str_chars(code.as_str());
        let lines = all_lines(chars.as_slice());
        let ghost all = lines_of(code@);
        let n = lines.len();
        let first: usize = match start {
            Some(s) => {
                let f = if s > 0 {
                    s - 1
                } else {
                    0
                };
                if f < n {
                    f
                } else {
                    n
                }
            },
            None => 0,
        };
        let last: usize = match (start, end) {
            (_, None) => n,
            (None, Some(e)) => if e < n {
                e
            } else {
                n
            },
            (Some(s), Some(e)) => {
                let f = if s > 0 {
                    s - 1
                } else {
                    0
                };
                let count = if e > f {
                    e - f
                } else {
                    0
                };
                if count < n - first {
                    first + count
                } else {
                    n
                }
            },
        };
        let ghost picked = all.subrange(first as int, last as int);
        let mut out: Vec<char> = Vec::new();
        let mut i: usize = first;
        while i < last
            invariant
                first <= i <= last <= n,
                n == all.len(),
                lines@.len() == n,
                forall|j: int| 0 <= j < n ==> (#[trigger] lines@[j])@ == all[j],
                picked == all.subrange(first as int, last as int),
                out@ == joined(picked.take(i - first)),
            decreases last - i,
        {
            if i > first {
                out.push('\n');
            }
            let line = &lines[i];
            let mut c: usize = 0;
            let ghost before = out@;
            while c < line.len()
                invariant
                    c <= line@.len(),
                    out@ == before + line@.take(c as int),
                decreases line@.len() - c,
            {
                out.push(line[c]);
                c += 1;
                assert(out@ =~= before + line@.take(c as int));
            }
            proof {
                assert(line@.take(c as int) =~= line@);
                let taken = picked.take(i + 1 - first);
                assert(taken.drop_last() =~= picked.take(i - first));
                assert(taken.last() == all[i as int]);
                if i > first {
                    assert(out@ =~= joined(taken.drop_last()) + seq!['\n'] + taken.last());
                } else {
                    assert(taken.len() == 1);
                    assert(out@ =~= taken[0]);
                }
            }
            i += 1;
        }
        proof {
            assert(picked.take(last - first) =~= picked);
            match (start, end) {
                (None, Some(e)) => {
                    assert(picked =~= all.take(smaller(e as int, n as int)));
                },
                (Some(s), None) => {
                    assert(picked =~= all.skip(first as int));
                },
                (Some(s), Some(e)) => {
                    assert(picked =~= all.skip(first as int).take(last - first));
                },
                _ => {},
            }
        }
        string_from_chars(out.as_slice())
    }
}

/// How a snippet is shown.
#[derive(Clone, Copy, Debug, PartialEq, Eq, Structural)]
pub enum SnippetRepr {
    /// As code.
    Snippet,
    /// As the image its execution gives.
    Image,
    /// As the output its execution gives, in its place.
    ExecReplace,
    /// Rendered by a tool, as a diagram or a formula.
    Render,
}

/// How a snippet is executed.
#[derive(Clone, Copy, Debug, PartialEq, Eq, Structural)]
pub enum SnippetExec {
    /// Not at all.
    Nothing,
    /// When asked to.
    Exec,
    /// As soon as the presentation is shown.
    AutoExec,
    /// Taking the whole terminal while it runs.
    AcquireTerminal,
    /// Only to check that it runs, when the presentation is built.
    Validate,
}

/// What a snippet's info string says of it.
#[derive(Clone, Debug, PartialEq, Eq)]
pub struct SnippetAttributes {
    pub representation: SnippetRepr,
    pub execution: SnippetExec,
    pub id: Option<String>,
    pub line_numbers: bool,
}

/// The kind of execution a presentation asked for where executions are disabled.
#[derive(Clone, Copy, Debug, PartialEq, Eq, Structural)]
pub enum ExecutionType {
    Execute,
    ExecReplace,
    Image,
}

/// What is done with a snippet's execution when its lines are shown.
#[derive(Clone, Copy, Debug, PartialEq, Eq, Structural)]
pub enum CodeExecution {
    /// Nothing: it isn't executed.
    Nothing,
    /// A note that execution of this kind is disabled.
    Disabled(ExecutionType),
    /// It runs, as soon as it is shown or when asked to; its output goes where its id says
    /// when it has one, else below it.
    Run { automatic: bool, has_id: bool },
    /// It runs taking the whole terminal.
    AcquireTerminal,
    /// It is checked to run.
    Validate,
}

/// How a snippet ends up on the slide.
#[derive(Clone, Copy, Debug, PartialEq, Eq, Structural)]
pub enum CodePlan {
    /// Rendered by a tool.
    Render,
    /// Replaced by the image its execution gives.
    Image,
    /// Replaced by the output its execution gives.
    ExecReplace,
    /// Its lines, then what the execution needs.
    Lines(CodeExecution),
}

/// Whether a snippet may be executed: a rendered one always; one whose output replaces it, or
/// an automatically executed one shown as code, only when replacing executions are enabled;
/// any other only when executions are.
pub open spec fn execution_allowed(a: SnippetAttributes, options: PresentationBuilderOptions) -> bool {
    match a.representation {
        SnippetRepr::Snippet => match a.execution {
            SnippetExec::AutoExec => options.enable_snippet_execution_replace,
            _ => options.enable_snippet_execution,
        },
        SnippetRepr::Image | SnippetRepr::ExecReplace => options.enable_snippet_execution_replace,
        SnippetRepr::Render => true,
    }
}

/// A snippet's attributes once the theme and the options have their say: line numbers when
/// the theme shows them, and rendering for the languages to render automatically.
pub open spec fn adjusted_attributes(
    a: SnippetAttributes,
    language: SnippetLanguage,
    theme_line_numbers: bool,
    options: PresentationBuilderOptions,
) -> SnippetAttributes {
    SnippetAttributes {
        line_numbers: a.line_numbers || theme_line_numbers,
        representation: if has_language(options.auto_render_languages@, language) {
            SnippetRepr::Render
        } else {
            a.representation
        },
        ..a
    }
}

/// How a snippet with these (adjusted) attributes ends up on the slide: refused when it has an
/// id but is not executed and shown as code; rendered; replaced by its image or its output
/// when execution is allowed; otherwise its lines, then a note that execution is disabled, the
/// execution itself, or nothing.
pub open spec fn code_plan(a: SnippetAttributes, allowed: bool) -> Result<CodePlan, InvalidPresentation> {
    if a.id is Some && (a.execution != SnippetExec::Exec || a.representation != SnippetRepr::Snippet) {
        Err(InvalidPresentation::SnippetIdNonExec)
    } else if a.representation == SnippetRepr::Render {
        Ok(CodePlan::Render)
    } else if a.representation == SnippetRepr::Image && allowed {
        Ok(CodePlan::Image)
    } else if a.representation == SnippetRepr::ExecReplace && allowed {
        Ok(CodePlan::ExecReplace)
    } else {
        Ok(
            CodePlan::Lines(
                match a.execution {
                    SnippetExec::Nothing => CodeExecution::Nothing,
                    SnippetExec::Validate => CodeExecution::Validate,
                    _ => if !allowed {
                        CodeExecution::Disabled(
                            if a.execution == SnippetExec::AutoExec {
                                ExecutionType::ExecReplace
                            } else {
                                match a.representation {
                                    SnippetRepr::Image => ExecutionType::Image,
                                    SnippetRepr::ExecReplace => ExecutionType::ExecReplace,
                                    _ => ExecutionType::Execute,
                                }
                            },
                        )
                    } else {
                        match a.execution {
                            SnippetExec::AcquireTerminal => CodeExecution::AcquireTerminal,
                            _ => CodeExecution::Run {
                                automatic: a.execution == SnippetExec::AutoExec,
                                has_id: a.id is Some,
                            },
                        }
                    },
                },
            ),
        )
    }
}

/// Whether a snippet may be executed, as `execution_allowed` says.
pub fn is_execution_allowed(attributes: &SnippetAttributes, options: &PresentationBuilderOptions) -> (b: bool)
    ensures
        b == execution_allowed(*attributes, *options),
{
    match attributes.representation {
        SnippetRepr::Snippet => match attributes.execution {
            SnippetExec::AutoExec => options.enable_snippet_execution_replace,
            _ => options.enable_snippet_execution,
        },
        SnippetRepr::Image | SnippetRepr::ExecReplace => options.enable_snippet_execution_replace,
        SnippetRepr::Render => true,
    }
}

/// Whether a language is one of some languages, as `same_language_spec` tells languages apart.
pub open spec fn has_language(languages: Seq<SnippetLanguage>, language: SnippetLanguage) -> bool {
    exists|j: int| 0 <= j < languages.len() && #[trigger] same_language_spec(languages[j], language)
}

/// Whether a language is one of some languages, as `has_language` says.
fn contains_language(languages: &Vec<SnippetLanguage>, language: &SnippetLanguage) -> (b: bool)
    ensures
        b == has_language(languages@, *language),
{
    let mut i: usize = 0;
    while i < languages.len()
        invariant
            i <= languages@.len(),
            forall|j: int| 0 <= j < i ==> !#[trigger] same_language_spec(languages@[j], *language),
        decreases languages@.len() - i,
    {
        if same_language(&languages[i], language) {
            return true;
        }
        i += 1;
    }
    false
}

impl PresentationBuilder {
    /// Decides how a code snippet goes on a slide: its attributes get line numbers when the
    /// theme shows them and become rendered for the languages to render automatically; a
    /// snippet with an id that isn't executed as code is refused; otherwise the plan says
    /// whether it's rendered, replaced by its image or its output, or shown as lines followed
    /// by a note that execution is disabled, its execution, or nothing. Drawing the lines and
    /// running the snippet follow the plan and are left to the caller.
    pub fn push_code(
        attributes: SnippetAttributes,
        language: &SnippetLanguage,
        theme_line_numbers: bool,
        options: &PresentationBuilderOptions,
    ) -> (r: Result<(SnippetAttributes, CodePlan), InvalidPresentation>)
        ensures
            ({
                let adjusted = adjusted_attributes(attributes, *language, theme_line_numbers, *options);
                match r {
                    Ok((a, plan)) => a == adjusted && code_plan(adjusted, execution_allowed(adjusted, *options))
                        == Ok::<CodePlan, InvalidPresentation>(plan),
                    Err(e) => code_plan(adjusted, execution_allowed(adjusted, *options)) == Err::<
                        CodePlan,
                        InvalidPresentation,
                    >(e),
                }
            }),
    {
        let mut a = attributes;
        if theme_line_numbers {
            a.line_numbers = true;
        }
        if contains_language(&options.auto_render_languages, language) {
            a.representation = SnippetRepr::Render;
        }
        let has_id = a.id.is_some();
        if has_id && (a.execution != SnippetExec::Exec || a.representation != SnippetRepr::Snippet) {
            return Err(InvalidPresentation::SnippetIdNonExec);
        }
        let allowed = is_execution_allowed(&a, options);
        let plan = match a.representation {
            SnippetRepr::Render => CodePlan::Render,
            SnippetRepr::Image if allowed => CodePlan::Image,
            SnippetRepr::ExecReplace if allowed => CodePlan::ExecReplace,
            _ => {
                let execution = match a.execution {
                    SnippetExec::Nothing => CodeExecution::Nothing,
                    SnippetExec::Validate => CodeExecution::Validate,
                    _ => if !allowed {
                        let exec_type = if a.execution == SnippetExec::AutoExec {
                            ExecutionType::ExecReplace
                        } else {
                            match a.representation {
                                SnippetRepr::Image => ExecutionType::Image,
                                SnippetRepr::ExecReplace => ExecutionType::ExecReplace,
                                _ => ExecutionType::Execute,
                            }
                        };
                        CodeExecution::Disabled(exec_type)
                    } else {
                        match a.execution {
                            SnippetExec::AcquireTerminal => CodeExecution::AcquireTerminal,
                            _ => CodeExecution::Run {
                                automatic: a.execution == SnippetExec::AutoExec,
                                has_id,
                            },
                        }
                    },
                };
                CodePlan::Lines(execution)
            },
        };
        Ok((a, plan))
    }
}

/// The ids of the snippets whose output is placed elsewhere, in the order they came.
#[derive(Debug, Default)]
pub struct SnippetIds {
    pub ids: Vec<String>,
}

impl SnippetIds {
    /// The ids, as text.
    pub open spec fn view(&self) -> Seq<Seq<char>> {
        self.ids@.map_values(|s: String| s@)
    }

    /// Whether an id was registered.
    pub fn contains(&self, id: &str) -> (b: bool)
        ensures
            b == self.view().contains(id@),
    {
        let mut i: usize = 0;
        while i < self.ids.len()
            invariant
                i <= self.ids@.len(),
                forall|j: int| 0 <= j < i ==> (#[trigger] self.ids@[j])@ != id@,
            decreases self.ids@.len() - i,
        {
            if str_eq(self.ids[i].as_str(), id) {
                assert(self.view()[i as int] == id@);
                return true;
            }
            i += 1;
        }
        proof {
            if self.view().contains(id@) {
                let j = choose|j: int| 0 <= j < self.view().len() && self.view()[j] == id@;
                assert(self.ids@[j]@ == id@);
            }
        }
        false
    }

    /// Registers the id of a snippet; an id registered before is refused and leaves the ids as
    /// they were.
    pub fn register(&mut self, id: String) -> (r: Result<(), InvalidPresentation>)
        ensures
            old(self).view().contains(id@) ==> r == Err::<(), InvalidPresentation>(
                InvalidPresentation::SnippetAlreadyExists,
            ) && final(self).view() == old(self).view(),
            !old(self).view().contains(id@) ==> r is Ok && final(self).view() == old(self).view().push(
                id@,
            ),
    {
        if self.contains(id.as_str()) {
            return Err(InvalidPresentation::SnippetAlreadyExists);
        }
        let ghost before = self.ids@;
        self.ids.push(id);
        proof {
            assert(self.ids@.map_values(|s: String| s@) =~= before.map_values(|s: String| s@).push(
                self.ids@.last()@,
            ));
        }
        Ok(())
    }
}

/// A registered snippet id can't be registered again: ids stay unique.
pub proof fn lemma_registered_id_is_refused(before: SnippetIds, after: SnippetIds, id: Seq<char>)
    requires
        after.view() == before.view().push(id),
    ensures
        after.view().contains(id),
{
    assert(after.view()[before.view().len() as int] == id);
}

} // verus!
