//! The resources a presentation pulls from the filesystem, cached by path: once one is loaded,
//! looking it up by the same path finds it in memory.
use crate::text_util::str_eq;
use crate::theme::PresentationTheme;
use vstd::prelude::*;

verus! {

/// A path joined onto a base one, as `std::path::Path::join` gives it, taken as text.
pub uninterp spec fn path_join(base: Seq<char>, path: Seq<char>) -> Seq<char>;

/// A path joined onto a base one.
///
/// Calls `std::path::Path::join`; its result is named `path_join`. Joining two paths given as
/// text gives text, so nothing is lost converting it back.
#[verifier::external_body]
fn join_path(base: &str, path: &str) -> (r: String)
    ensures
        r@ == path_join(base@, path@),
{
    std::path::Path::new(base).join(path).to_string_lossy().into_owned()
}

/// What some entries, the later ones over the earlier ones, map each path to.
pub open spec fn entries_map<V>(entries: Seq<(String, V)>) -> Map<Seq<char>, V>
    decreases entries.len(),
{
    if entries.len() == 0 {
        Map::empty()
    } else {
        entries_map(entries.drop_last()).insert(entries.last().0@, entries.last().1)
    }
}

/// Whether no path occurs twice in some entries.
pub open spec fn distinct_paths<V>(entries: Seq<(String, V)>) -> bool {
    forall|i: int, j: int|
        0 <= i < j < entries.len() ==> (#[trigger] entries[i]).0@ != (#[trigger] entries[j]).0@
}

/// The paths of some entries are the paths their map knows, and with distinct paths each entry's
/// value is the one its path maps to.
pub proof fn lemma_entries_map<V>(entries: Seq<(String, V)>)
    ensures
        forall|k: Seq<char>|
            #[trigger] entries_map(entries).contains_key(k) <==> exists|i: int|
                0 <= i < entries.len() && (#[trigger] entries[i]).0@ == k,
        distinct_paths(entries) ==> forall|i: int|
            0 <= i < entries.len() ==> entries_map(entries)[(#[trigger] entries[i]).0@] == entries[i].1,
    decreases entries.len(),
{
    if entries.len() > 0 {
        let rest = entries.drop_last();
        lemma_entries_map(rest);
        assert forall|k: Seq<char>|
            #[trigger] entries_map(entries).contains_key(k) <==> exists|i: int|
                0 <= i < entries.len() && (#[trigger] entries[i]).0@ == k by {
            let last = entries.len() - 1;
            assert(entries_map(entries) == entries_map(rest).insert(entries[last].0@, entries[last].1));
            if entries_map(entries).contains_key(k) {
                if k == entries[last].0@ {
                    assert(0 <= last < entries.len() && entries[last].0@ == k);
                } else {
                    assert(entries_map(rest).contains_key(k));
                    let i = choose|i: int| 0 <= i < rest.len() && (#[trigger] rest[i]).0@ == k;
                    assert(entries[i] == rest[i]);
                    assert(0 <= i < entries.len() && entries[i].0@ == k);
                }
            }
            if exists|i: int| 0 <= i < entries.len() && (#[trigger] entries[i]).0@ == k {
                let i = choose|i: int| 0 <= i < entries.len() && (#[trigger] entries[i]).0@ == k;
                if i < last {
                    assert(rest[i] == entries[i]);
                    assert(entries_map(rest).contains_key(k));
                }
            }
        }
        if distinct_paths(entries) {
            assert(distinct_paths(rest)) by {
                assert forall|i: int, j: int| 0 <= i < j < rest.len() implies (#[trigger] rest[i]).0@
                    != (#[trigger] rest[j]).0@ by {
                    assert(rest[i] == entries[i] && rest[j] == entries[j]);
                }
            }
            assert forall|i: int| 0 <= i < entries.len() implies entries_map(entries)[(
            #[trigger] entries[i]).0@] == entries[i].1 by {
                if i < entries.len() - 1 {
                    assert(rest[i] == entries[i]);
                    assert(entries[i].0@ != entries[entries.len() - 1].0@);
                }
            }
        }
    }
}

/// Values cached by path.
#[derive(Debug)]
pub struct PathCache<V> {
    pub entries: Vec<(String, V)>,
}

impl<V> PathCache<V> {
    /// What the cache maps each path to.
    pub open spec fn view(&self) -> Map<Seq<char>, V> {
        entries_map(self.entries@)
    }

    /// A cache is well formed when no path occurs twice in it.
    pub open spec fn wf(&self) -> bool {
        distinct_paths(self.entries@)
    }

    /// An empty cache.
    pub fn new() -> (c: Self)
        ensures
            c.wf(),
            c.view() == Map::<Seq<char>, V>::empty(),
    {
        PathCache { entries: Vec::new() }
    }

    /// The position of a path in the cache, if it's there.
    fn position(&self, path: &str) -> (r: Option<usize>)
        ensures
            r matches Some(i) ==> i < self.entries@.len() && self.entries@[i as int].0@ == path@,
            r is None ==> forall|i: int|
                0 <= i < self.entries@.len() ==> (#[trigger] self.entries@[i]).0@ != path@,
    {
        let mut i: usize = 0;
        while i < self.entries.len()
            invariant
                i <= self.entries@.len(),
                forall|j: int| 0 <= j < i ==> (#[trigger] self.entries@[j]).0@ != path@,
            decreases self.entries@.len() - i,
        {
            if str_eq(self.entries[i].0.as_str(), path) {
                return Some(i);
            }
            i += 1;
        }
        None
    }

    /// The value cached for a path.
    pub fn get(&self, path: &str) -> (r: Option<&V>)
        requires
            self.wf(),
        ensures
            r is Some <==> self.view().contains_key(path@),
            r matches Some(v) ==> *v == self.view()[path@],
    {
        proof {
            lemma_entries_map(self.entries@);
        }
        match self.position(path) {
            Some(i) => Some(&self.entries[i].1),
            None => None,
        }
    }

    /// Caches a value for a path, in place of the one it had.
    pub fn insert(&mut self, path: String, value: V)
        requires
            old(self).wf(),
        ensures
            final(self).wf(),
            final(self).view() == old(self).view().insert(path@, value),
    {
        proof {
            lemma_entries_map(self.entries@);
        }
        let ghost before = self.entries@;
        match self.position(path.as_str()) {
            Some(i) => {
                let ghost old_map = entries_map(before);
                self.entries.set(i, (path, value));
                let ghost after = self.entries@;
                proof {
                    assert(distinct_paths(after)) by {
                        assert forall|a: int, b: int| 0 <= a < b < after.len() implies (
                        #[trigger] after[a]).0@ != (#[trigger] after[b]).0@ by {
                            assert(before[a].0@ != before[b].0@);
                        }
                    }
                    lemma_entries_map(after);
                    assert(entries_map(after) =~= old_map.insert(after[i as int].0@, value)) by {
                        assert forall|k: Seq<char>| #[trigger]
                            entries_map(after).contains_key(k) == old_map.insert(
                                after[i as int].0@,
                                value,
                            ).contains_key(k) by {
                            if entries_map(after).contains_key(k) {
                                let j = choose|j: int|
                                    0 <= j < after.len() && (#[trigger] after[j]).0@ == k;
                                if j != i {
                                    assert(before[j] == after[j]);
                                }
                            }
                            if old_map.contains_key(k) {
                                let j = choose|j: int|
                                    0 <= j < before.len() && (#[trigger] before[j]).0@ == k;
                                if j != i {
                                    assert(before[j] == after[j]);
                                }
                            }
                        }
                        assert forall|k: Seq<char>| #[trigger]
                            entries_map(after).contains_key(k) implies entries_map(after)[k]
                            == old_map.insert(after[i as int].0@, value)[k] by {
                            let j = choose|j: int|
                                0 <= j < after.len() && (#[trigger] after[j]).0@ == k;
                            if j != i {
                                assert(before[j] == after[j]);
                                assert(before[i as int].0@ == after[i as int].0@);
                            }
                        }
                    }
                }
            },
            None => {
                let ghost key = path@;
                self.entries.push((path, value));
                proof {
                    let after = self.entries@;
                    assert(after.drop_last() =~= before);
                    assert(distinct_paths(after)) by {
                        assert forall|a: int, b: int| 0 <= a < b < after.len() implies (
                        #[trigger] after[a]).0@ != (#[trigger] after[b]).0@ by {
                            if b < after.len() - 1 {
                                assert(before[a] == after[a] && before[b] == after[b]);
                            } else {
                                assert(before[a] == after[a]);
                            }
                        }
                    }
                }
            },
        }
    }

    /// Forgets every cached value.
    pub fn clear(&mut self)
        ensures
            final(self).wf(),
            final(self).view() == Map::<Seq<char>, V>::empty(),
    {
        self.entries = Vec::new();
    }
}

/// The resources a presentation pulls from the filesystem: themes and external snippets, each
/// cached by its path joined onto the presentation's directory.
#[derive(Debug)]
pub struct Resources {
    pub base_path: String,
    pub themes_path: String,
    pub themes: PathCache<PresentationTheme>,
    pub external_snippets: PathCache<String>,
}

impl Resources {
    /// Well formed when both caches are.
    pub open spec fn wf(&self) -> bool {
        self.themes.wf() && self.external_snippets.wf()
    }

    /// The path under which a resource given by a path is cached and loaded: the path joined
    /// onto the presentation's directory.
    pub open spec fn key(&self, path: Seq<char>) -> Seq<char> {
        path_join(self.base_path@, path)
    }

    /// Resources found from a base directory, with nothing cached yet.
    pub fn new(base_path: String, themes_path: String) -> (r: Self)
        ensures
            r.wf(),
            r.base_path@ == base_path@,
            r.themes_path@ == themes_path@,
            r.themes.view() == Map::<Seq<char>, PresentationTheme>::empty(),
            r.external_snippets.view() == Map::<Seq<char>, String>::empty(),
    {
        Resources { base_path, themes_path, themes: PathCache::new(), external_snippets: PathCache::new() }
    }

    /// The path from which a resource given by a path is loaded.
    pub fn resource_path(&self, path: &str) -> (p: String)
        ensures
            p@ == self.key(path@),
    {
        join_path(self.base_path.as_str(), path)
    }

    /// The theme cached for a path, if it was loaded before.
    pub fn cached_theme(&self, path: &str) -> (r: Option<&PresentationTheme>)
        requires
            self.wf(),
        ensures
            r is Some <==> self.themes.view().contains_key(self.key(path@)),
            r matches Some(t) ==> *t == self.themes.view()[self.key(path@)],
    {
        let key = self.resource_path(path);
        self.themes.get(key.as_str())
    }

    /// Caches the theme loaded from a path.
    pub fn cache_theme(&mut self, path: &str, theme: PresentationTheme)
        requires
            old(self).wf(),
        ensures
            final(self).wf(),
            final(self).base_path == old(self).base_path,
            final(self).themes_path == old(self).themes_path,
            final(self).themes.view() == old(self).themes.view().insert(old(self).key(path@), theme),
            final(self).external_snippets == old(self).external_snippets,
    {
        let key = self.resource_path(path);
        self.themes.insert(key, theme);
    }

    /// The external snippet cached for a path, if it was loaded before.
    pub fn cached_external_snippet(&self, path: &str) -> (r: Option<String>)
        requires
            self.wf(),
        ensures
            r is Some <==> self.external_snippets.view().contains_key(self.key(path@)),
            r matches Some(s) ==> s@ == self.external_snippets.view()[self.key(path@)]@,
    {
        let key = self.resource_path(path);
        match self.external_snippets.get(key.as_str()) {
            Some(s) => Some(s.clone()),
            None => None,
        }
    }

    /// Caches the external snippet loaded from a path.
    pub fn cache_external_snippet(&mut self, path: &str, contents: String)
        requires
            old(self).wf(),
        ensures
            final(self).wf(),
            final(self).base_path == old(self).base_path,
            final(self).themes_path == old(self).themes_path,
            final(self).external_snippets.view() == old(self).external_snippets.view().insert(
                old(self).key(path@),
                contents,
            ),
            final(self).themes == old(self).themes,
    {
        let key = self.resource_path(path);
        self.external_snippets.insert(key, contents);
    }

    /// Forgets the external snippets, whose files stop being watched; the themes stay.
    pub fn clear_watches(&mut self)
        requires
            old(self).wf(),
        ensures
            final(self).wf(),
            final(self).base_path == old(self).base_path,
            final(self).themes_path == old(self).themes_path,
            final(self).themes == old(self).themes,
            final(self).external_snippets.view() == Map::<Seq<char>, String>::empty(),
    {
        self.external_snippets.clear();
    }

    /// Forgets the cached themes; the external snippets stay.
    pub fn clear(&mut self)
        requires
            old(self).wf(),
        ensures
            final(self).wf(),
            final(self).base_path == old(self).base_path,
            final(self).themes_path == old(self).themes_path,
            final(self).external_snippets == old(self).external_snippets,
            final(self).themes.view() == Map::<Seq<char>, PresentationTheme>::empty(),
    {
        self.themes.clear();
    }
}

/// Once an external snippet is cached for a path, looking it up by the same path finds it, and
/// caching it leaves every other path's snippet as it was.
pub proof fn lemma_cached_snippet_is_found(
    before: Resources,
    after: Resources,
    path: Seq<char>,
    contents: String,
    other: Seq<char>,
)
    requires
        after.base_path == before.base_path,
        after.external_snippets.view() == before.external_snippets.view().insert(
            before.key(path),
            contents,
        ),
    ensures
        after.external_snippets.view().contains_key(after.key(path)),
        after.external_snippets.view()[after.key(path)] == contents,
        before.key(other) != before.key(path) ==> after.external_snippets.view().get(after.key(other))
            == before.external_snippets.view().get(before.key(other)),
{
}

/// Once a theme is cached for a path, looking it up by the same path finds it, and caching it
/// leaves every other path's theme as it was.
pub proof fn lemma_cached_theme_is_found(
    before: Resources,
    after: Resources,
    path: Seq<char>,
    theme: PresentationTheme,
    other: Seq<char>,
)
    requires
        after.base_path == before.base_path,
        after.themes.view() == before.themes.view().insert(before.key(path), theme),
    ensures
        after.themes.view().contains_key(after.key(path)),
        after.themes.view()[after.key(path)] == theme,
        before.key(other) != before.key(path) ==> after.themes.view().get(after.key(other))
            == before.themes.view().get(before.key(other)),
{
}

} // verus!
