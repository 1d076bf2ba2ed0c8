//! The stack of markdown files being read, which catches include cycles.
use crate::error_context::SourcePosition;
use crate::text_util::{str_chars, string_from_chars};
use vstd::prelude::*;

verus! {

/// The parent of a path, as `std::path::Path::parent` gives it.
pub uninterp spec fn path_parent(path: Seq<char>) -> Option<Seq<char>>;

/// Whether two paths are the same, as `std::path::Path` compares them (component by component).
pub uninterp spec fn path_eq(a: Seq<char>, b: Seq<char>) -> bool;

/// The parent of a path.
///
/// Calls `std::path::Path::parent`; its result is named `path_parent`. The parent of a path
/// given as text is itself text, so nothing is lost converting it back.
#[verifier::external_body]
fn parent_of(path: &str) -> (r: Option<String>)
    ensures
        r is Some <==> path_parent(path@) is Some,
        r matches Some(p) ==> p@ == path_parent(path@).unwrap(),
{
    std::path::Path::new(path).parent().map(|p| p.to_string_lossy().into_owned())
}

/// Whether two paths are the same.
///
/// Calls `PartialEq` of `std::path::Path`; its result is named `path_eq`. A path is the same as
/// itself: equal texts give equal components.
#[verifier::external_body]
fn same_path(a: &str, b: &str) -> (r: bool)
    ensures
        r == path_eq(a@, b@),
        a@ == b@ ==> r,
{
    std::path::Path::new(a) == std::path::Path::new(b)
}

/// A position in a specific file.
#[derive(Clone, Debug)]
pub struct FileSourcePosition {
    pub source_position: SourcePosition,
    pub file: String,
}

/// An error entering a markdown file.
#[derive(Debug)]
pub enum MarkdownSourceError {
    /// The path has no parent directory.
    NoParent,
    /// The path is already being read.
    IncludeCycle(String),
}

/// The markdown files being read, the innermost last.
#[derive(Debug, Default)]
pub struct MarkdownSources {
    pub include_paths: Vec<String>,
}

/// The paths in a stack.
pub open spec fn path_views(paths: Seq<String>) -> Seq<Seq<char>> {
    paths.map_values(|p: String| p@)
}

/// Whether a path is already in the stack.
pub open spec fn includes_path(paths: Seq<Seq<char>>, path: Seq<char>) -> bool {
    exists|i: int| 0 <= i < paths.len() && path_eq(#[trigger] paths[i], path)
}

impl MarkdownSources {
    /// The stack of paths being read.
    pub open spec fn stack(&self) -> Seq<Seq<char>> {
        path_views(self.include_paths@)
    }

    /// Every path in the stack has a parent.
    pub open spec fn wf(&self) -> bool {
        forall|i: int| 0 <= i < self.stack().len() ==> (#[trigger] path_parent(self.stack()[i])) is Some
    }

    /// No file is being read.
    pub fn new() -> (s: Self)
        ensures
            s.stack().len() == 0,
            s.wf(),
    {
        MarkdownSources { include_paths: Vec::new() }
    }

    /// Starts reading a file: fails if the path has no parent or if it's already being read,
    /// else pushes it.
    pub fn enter(&mut self, path: &str) -> (r: Result<(), MarkdownSourceError>)
        requires
            old(self).wf(),
        ensures
            final(self).wf(),
            path_parent(path@) is None ==> (r matches Err(MarkdownSourceError::NoParent)
                && final(self).stack() == old(self).stack()),
            path_parent(path@) is Some && includes_path(old(self).stack(), path@) ==> (r matches Err(
                MarkdownSourceError::IncludeCycle(p),
            ) && p@ == path@ && final(self).stack() == old(self).stack()),
            path_parent(path@) is Some && !includes_path(old(self).stack(), path@) ==> (r is Ok
                && final(self).stack() == old(self).stack().push(path@)),
    {
        let chars = str_chars(path);
        if parent_of(path).is_none() {
            return Err(MarkdownSourceError::NoParent);
        }
        let mut i: usize = 0;
        while i < self.include_paths.len()
            invariant
                i <= self.include_paths@.len(),
                self.include_paths@ == old(self).include_paths@,
                old(self).wf(),
                path_parent(path@) is Some,
                chars@ == path@,
                forall|k: int| 0 <= k < i ==> !path_eq(#[trigger] self.stack()[k], path@),
            decreases self.include_paths@.len() - i,
        {
            if same_path(self.include_paths[i].as_str(), path) {
                proof {
                    assert(path_eq(self.stack()[i as int], path@));
                }
                let cycle = string_from_chars(chars.as_slice());
                assert(cycle@ == path@);
                assert(self.stack() == old(self).stack());
                return Err(MarkdownSourceError::IncludeCycle(cycle));
            }
            i += 1;
        }
        self.include_paths.push(string_from_chars(chars.as_slice()));
        proof {
            assert(self.stack() =~= old(self).stack().push(path@));
        }
        Ok(())
    }

    /// Stops reading the innermost file.
    pub fn exit(&mut self)
        requires
            old(self).wf(),
        ensures
            final(self).wf(),
            old(self).stack().len() == 0 ==> final(self).stack().len() == 0,
            old(self).stack().len() > 0 ==> final(self).stack() == old(self).stack().drop_last(),
    {
        self.include_paths.pop();
        proof {
            if old(self).stack().len() > 0 {
                assert(self.stack() =~= old(self).stack().drop_last());
            }
        }
    }

    /// The directory of the innermost file, or "." when none is being read.
    pub fn current_base_path(&self) -> (p: String)
        requires
            self.wf(),
        ensures
            self.stack().len() == 0 ==> p@ == seq!['.'],
            self.stack().len() > 0 ==> p@ == path_parent(self.stack().last()).unwrap(),
    {
        if self.include_paths.len() == 0 {
            let mut p = String::new();
            crate::text_util::string_push(&mut p, '.');
            return p;
        }
        let last = self.include_paths.len() - 1;
        proof {
            assert(path_parent(self.stack()[last as int]) is Some);
        }
        match parent_of(self.include_paths[last].as_str()) {
            Some(p) => p,
            None => String::new(),
        }
    }

    /// The given position in the innermost file, or in "." when none is being read.
    pub fn resolve_source_position(&self, source_position: SourcePosition) -> (p: FileSourcePosition)
        ensures
            p.source_position == source_position,
            self.stack().len() == 0 ==> p.file@ == seq!['.'],
            self.stack().len() > 0 ==> p.file@ == self.stack().last(),
    {
        let file = if self.include_paths.len() == 0 {
            let mut p = String::new();
            crate::text_util::string_push(&mut p, '.');
            p
        } else {
            let last = self.include_paths.len() - 1;
            let chars = str_chars(self.include_paths[last].as_str());
            string_from_chars(chars.as_slice())
        };
        FileSourcePosition { source_position, file }
    }
}

/// A file that is being read can't be entered again: once a path is on the stack, entering
/// that same path fails with an include cycle, however many files were entered after it.
pub proof fn lemma_entered_path_cycles(stack: Seq<Seq<char>>, path: Seq<char>, later: Seq<Seq<char>>)
    requires
        path_eq(path, path),
    ensures
        includes_path(stack.push(path) + later, path),
{
    assert((stack.push(path) + later)[stack.len() as int] == path);
}

/// Entering a file and then leaving it gives back the stack as it was.
pub proof fn lemma_enter_exit_restores(stack: Seq<Seq<char>>, path: Seq<char>)
    ensures
        stack.push(path).drop_last() == stack,
{
    assert(stack.push(path).drop_last() =~= stack);
}

} // verus!
