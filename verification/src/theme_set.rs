//! The set of presentation themes: built in ones and custom ones, and the order in which
//! custom themes that extend others are resolved.
use crate::options::ExIoError;
use crate::text_util::{str_chars, string_from_chars};
use std::io::Error as IoError;
use vstd::prelude::*;

verus! {

/// Whether `a` comes before `b` in lexicographic order, character by character.
pub open spec fn lex_lt(a: Seq<char>, b: Seq<char>) -> bool
    decreases a.len(),
{
    if a.len() == 0 {
        b.len() > 0
    } else if b.len() == 0 {
        false
    } else if a[0] != b[0] {
        a[0] < b[0]
    } else {
        lex_lt(a.drop_first(), b.drop_first())
    }
}

/// Nothing comes before itself.
pub proof fn lemma_lex_irreflexive(a: Seq<char>)
    ensures
        !lex_lt(a, a),
    decreases a.len(),
{
    if a.len() > 0 {
        lemma_lex_irreflexive(a.drop_first());
    }
}

/// Of two different texts, one comes before the other.
pub proof fn lemma_lex_total(a: Seq<char>, b: Seq<char>)
    requires
        a != b,
    ensures
        lex_lt(a, b) || lex_lt(b, a),
    decreases a.len(),
{
    if a.len() > 0 && b.len() > 0 && a[0] == b[0] {
        if a.drop_first() == b.drop_first() {
            assert(a =~= seq![a[0]] + a.drop_first());
            assert(b =~= seq![b[0]] + b.drop_first());
        }
        lemma_lex_total(a.drop_first(), b.drop_first());
    }
    if a.len() == 0 && b.len() == 0 {
        assert(a =~= b);
    }
}

/// The order is transitive.
pub proof fn lemma_lex_transitive(a: Seq<char>, b: Seq<char>, c: Seq<char>)
    requires
        lex_lt(a, b),
        lex_lt(b, c),
    ensures
        lex_lt(a, c),
    decreases a.len(),
{
    if a.len() > 0 && b.len() > 0 && c.len() > 0 && a[0] == b[0] && b[0] == c[0] {
        lemma_lex_transitive(a.drop_first(), b.drop_first(), c.drop_first());
    }
}

/// Whether `a` comes before `b` in lexicographic order.
pub fn lex_less(a: &[char], b: &[char]) -> (r: bool)
    ensures
        r == lex_lt(a@, b@),
{
    let mut i: usize = 0;
    assert(a@.skip(0) =~= a@);
    assert(b@.skip(0) =~= b@);
    while i < a.len() && i < b.len()
        invariant
            i <= a@.len(),
            i <= b@.len(),
            lex_lt(a@, b@) == lex_lt(a@.skip(i as int), b@.skip(i as int)),
        decreases a@.len() - i,
    {
        if a[i] != b[i] {
            assert(a@.skip(i as int)[0] == a@[i as int]);
            assert(b@.skip(i as int)[0] == b@[i as int]);
            return a[i] < b[i];
        }
        proof {
            assert(a@.skip(i as int).drop_first() =~= a@.skip(i + 1));
            assert(b@.skip(i as int).drop_first() =~= b@.skip(i + 1));
        }
        i += 1;
    }
    assert(a@.skip(i as int).len() == a@.len() - i);
    assert(b@.skip(i as int).len() == b@.len() - i);
    i == a.len() && i < b.len()
}

/// A custom theme: its name, the theme it extends, and the theme itself.
pub struct CustomTheme<T> {
    pub name: String,
    pub extends: Option<String>,
    pub theme: T,
}

/// The name a theme extends, if any.
pub open spec fn extends_view(e: Option<String>) -> Option<Seq<char>> {
    match e {
        Some(s) => Some(s@),
        None => None,
    }
}

/// The names of some custom themes.
pub open spec fn names_of<T>(themes: Seq<CustomTheme<T>>) -> Seq<Seq<char>> {
    themes.map_values(|t: CustomTheme<T>| t.name@)
}

/// What some strings hold.
pub open spec fn string_views(v: Seq<String>) -> Seq<Seq<char>> {
    v.map_values(|s: String| s@)
}

/// Whether names are in strictly increasing order.
pub open spec fn strictly_sorted(names: Seq<Seq<char>>) -> bool {
    forall|i: int, j: int| 0 <= i < j < names.len() ==> lex_lt(names[i], names[j])
}

/// Whether a name is in a list.
pub open spec fn listed(names: Seq<Seq<char>>, name: Seq<char>) -> bool {
    exists|i: int| 0 <= i < names.len() && names[i] == name
}

/// An error loading a presentation theme.
#[derive(Debug)]
pub enum LoadThemeError {
    Io(IoError),
    /// The theme at this path is corrupted, for the given reason.
    Corrupted(String, String),
    /// A custom theme has the name of a built in one.
    Duplicate(String),
    /// A theme extends one that doesn't exist.
    ExtendedThemeNotFound(String),
    /// Themes extend each other in a loop; these are the ones involved.
    ExtensionLoop(Vec<String>),
}

/// The built in themes and the custom ones, the latter sorted by name.
pub struct PresentationThemeSet<T> {
    pub custom_themes: Vec<CustomTheme<T>>,
    pub builtin_names: Vec<String>,
}

impl<T> PresentationThemeSet<T> {
    /// The names of the custom themes.
    pub open spec fn custom_names(&self) -> Seq<Seq<char>> {
        names_of(self.custom_themes@)
    }

    /// The names of the built in themes.
    pub open spec fn builtin(&self) -> Seq<Seq<char>> {
        string_views(self.builtin_names@)
    }

    /// Custom themes are sorted by name, each name once.
    pub open spec fn wf(&self) -> bool {
        strictly_sorted(self.custom_names())
    }

    /// A set with the given built in themes and no custom one.
    pub fn new(builtin_names: Vec<String>) -> (s: Self)
        ensures
            s.custom_themes@.len() == 0,
            s.builtin_names@ == builtin_names@,
            s.wf(),
    {
        PresentationThemeSet { custom_themes: Vec::new(), builtin_names }
    }

    /// Whether a theme is built in.
    pub fn is_builtin(&self, name: &str) -> (b: bool)
        ensures
            b == listed(self.builtin(), name@),
    {
        let mut i: usize = 0;
        while i < self.builtin_names.len()
            invariant
                i <= self.builtin_names@.len(),
                forall|k: int| 0 <= k < i ==> self.builtin()[k] != name@,
            decreases self.builtin_names@.len() - i,
        {
            if crate::text_util::str_eq(self.builtin_names[i].as_str(), name) {
                assert(self.builtin()[i as int] == name@);
                return true;
            }
            i += 1;
        }
        false
    }

    /// Fails when a custom theme would have the name of a built in one.
    pub fn check_not_builtin(&self, name: &str) -> (r: Result<(), LoadThemeError>)
        ensures
            listed(self.builtin(), name@) ==> (r matches Err(LoadThemeError::Duplicate(n)) && n@
                == name@),
            !listed(self.builtin(), name@) ==> r is Ok,
    {
        if self.is_builtin(name) {
            let chars = str_chars(name);
            Err(LoadThemeError::Duplicate(string_from_chars(chars.as_slice())))
        } else {
            Ok(())
        }
    }

    /// The position of a custom theme with this name, or where one would go.
    fn position_of(&self, name: &str) -> (r: (usize, bool))
        requires
            self.wf(),
        ensures
            r.0 <= self.custom_names().len(),
            r.1 ==> r.0 < self.custom_names().len() && self.custom_names()[r.0 as int] == name@,
            !r.1 ==> forall|k: int| 0 <= k < self.custom_names().len() ==> self.custom_names()[k] != name@,
            forall|k: int| 0 <= k < r.0 ==> lex_lt(#[trigger] self.custom_names()[k], name@),
            !r.1 ==> forall|k: int|
                r.0 <= k < self.custom_names().len() ==> lex_lt(name@, #[trigger] self.custom_names()[k]),
    {
        let target = str_chars(name);
        let mut i: usize = 0;
        while i < self.custom_themes.len()
            invariant
                i <= self.custom_names().len(),
                self.custom_names().len() == self.custom_themes@.len(),
                self.wf(),
                target@ == name@,
                forall|k: int| 0 <= k < i ==> lex_lt(#[trigger] self.custom_names()[k], name@),
            decreases self.custom_themes@.len() - i,
        {
            let current = str_chars(self.custom_themes[i].name.as_str());
            assert(current@ == self.custom_names()[i as int]);
            if !lex_less(current.as_slice(), target.as_slice()) {
                let same = crate::text_util::chars_eq(current.as_slice(), target.as_slice());
                proof {
                    if !same {
                        lemma_lex_total(current@, name@);
                        assert forall|k: int| i <= k < self.custom_names().len() implies lex_lt(
                            name@,
                            #[trigger] self.custom_names()[k],
                        ) by {
                            if k > i {
                                assert(lex_lt(self.custom_names()[i as int], self.custom_names()[k]));
                                lemma_lex_transitive(name@, current@, self.custom_names()[k]);
                            }
                        }
                        assert forall|k: int| 0 <= k < self.custom_names().len() implies self.custom_names()[k] != name@ by {
                            if k < i {
                                lemma_lex_irreflexive(name@);
                            } else {
                                lemma_lex_irreflexive(name@);
                            }
                        }
                    }
                }
                return (i, same);
            }
            i += 1;
        }
        proof {
            assert forall|k: int| 0 <= k < self.custom_names().len() implies self.custom_names()[k] != name@ by {
                lemma_lex_irreflexive(name@);
            }
        }
        (i, false)
    }

    /// Adds a custom theme, replacing one with the same name.
    pub fn insert_custom(&mut self, name: &str, extends: Option<String>, theme: T)
        requires
            old(self).wf(),
        ensures
            final(self).wf(),
            final(self).builtin_names@ == old(self).builtin_names@,
            listed(final(self).custom_names(), name@),
            forall|n: Seq<char>|
                #![trigger listed(final(self).custom_names(), n)]
                listed(final(self).custom_names(), n) == (listed(old(self).custom_names(), n) || n
                    == name@),
            forall|k: int|
                0 <= k < final(self).custom_themes@.len() && final(self).custom_names()[k] == name@
                    ==> extends_view(#[trigger] final(self).custom_themes@[k].extends) == extends_view(
                    extends,
                ) && final(self).custom_themes@[k].theme == theme,
            forall|k: int, j: int|
                0 <= k < old(self).custom_themes@.len() && 0 <= j < final(self).custom_themes@.len()
                    && old(self).custom_names()[k] != name@ && final(self).custom_names()[j]
                    == old(self).custom_names()[k] ==> extends_view(
                    #[trigger] final(self).custom_themes@[j].extends,
                ) == extends_view(#[trigger] old(self).custom_themes@[k].extends)
                    && final(self).custom_themes@[j].theme == old(self).custom_themes@[k].theme,
    {
        let (at, found) = self.position_of(name);
        let chars = str_chars(name);
        let entry = CustomTheme { name: string_from_chars(chars.as_slice()), extends, theme };
        let ghost before = self.custom_themes@;
        if found {
            self.custom_themes.set(at, entry);
            proof {
                assert(self.custom_names() =~= names_of(before).update(at as int, name@));
                assert forall|n: Seq<char>|
                    #![trigger listed(self.custom_names(), n)]
                    listed(self.custom_names(), n) == (listed(names_of(before), n) || n == name@) by {
                    if listed(names_of(before), n) {
                        let k = choose|k: int| 0 <= k < names_of(before).len() && names_of(before)[k] == n;
                        assert(self.custom_names()[k] == n);
                    }
                    if listed(self.custom_names(), n) {
                        let k = choose|k: int| 0 <= k < self.custom_names().len() && self.custom_names()[k] == n;
                        assert(names_of(before)[k] == n || k == at);
                    }
                    assert(self.custom_names()[at as int] == name@);
                }
            }
        } else {
            self.custom_themes.insert(at, entry);
            proof {
                assert(self.custom_names() =~= names_of(before).insert(at as int, name@));
                assert forall|i: int, j: int|
                    0 <= i < j < self.custom_names().len() implies lex_lt(
                    self.custom_names()[i],
                    self.custom_names()[j],
                ) by {
                    if i < at && j > at {
                        lemma_lex_transitive(names_of(before)[i], name@, names_of(before)[j - 1]);
                    }
                }
                assert forall|n: Seq<char>|
                    #![trigger listed(self.custom_names(), n)]
                    listed(self.custom_names(), n) == (listed(names_of(before), n) || n == name@) by {
                    if listed(names_of(before), n) {
                        let k = choose|k: int| 0 <= k < names_of(before).len() && names_of(before)[k] == n;
                        if k < at {
                            assert(self.custom_names()[k] == n);
                        } else {
                            assert(self.custom_names()[k + 1] == n);
                        }
                    }
                    if listed(self.custom_names(), n) {
                        let k = choose|k: int| 0 <= k < self.custom_names().len() && self.custom_names()[k] == n;
                        if k < at {
                            assert(names_of(before)[k] == n);
                        } else if k > at {
                            assert(names_of(before)[k - 1] == n);
                        }
                    }
                    assert(self.custom_names()[at as int] == name@);
                }
            }
        }
        proof {
            assert forall|k: int, j: int|
                0 <= k < before.len() && 0 <= j < self.custom_themes@.len() && names_of(before)[k]
                    != name@ && self.custom_names()[j] == names_of(before)[k] implies extends_view(
                #[trigger] self.custom_themes@[j].extends,
            ) == extends_view(#[trigger] before[k].extends) && self.custom_themes@[j].theme
                == before[k].theme by {
                let jj = if found {
                    j
                } else if j < at {
                    j
                } else {
                    j - 1
                };
                assert(j != at);
                assert(self.custom_themes@[j] == before[jj]);
                if jj != k {
                    if jj < k {
                        assert(lex_lt(names_of(before)[jj], names_of(before)[k]));
                    } else {
                        assert(lex_lt(names_of(before)[k], names_of(before)[jj]));
                    }
                    lemma_lex_irreflexive(names_of(before)[k]);
                }
            }
            assert forall|k: int|
                0 <= k < self.custom_themes@.len() && self.custom_names()[k] == name@ implies extends_view(
                #[trigger] self.custom_themes@[k].extends,
            ) == extends_view(extends) && self.custom_themes@[k].theme == theme by {
                if k != at {
                    let kk = if found || k < at {
                        k
                    } else {
                        k - 1
                    };
                    assert(names_of(before)[kk] == name@);
                    if found {
                        assert(names_of(before)[at as int] == name@);
                        if kk < at {
                            assert(lex_lt(names_of(before)[kk], names_of(before)[at as int]));
                        } else {
                            assert(lex_lt(names_of(before)[at as int], names_of(before)[kk]));
                        }
                        lemma_lex_irreflexive(name@);
                    }
                }
            }
        }
    }

    /// Whether a theme of this name can be loaded: a custom one, or a built in one.
    pub fn has_theme(&self, name: &str) -> (b: bool)
        requires
            self.wf(),
        ensures
            b == theme_loads(*self, name@),
    {
        self.custom_theme(name).is_some() || self.is_builtin(name)
    }

    /// The names of all the themes: the custom ones, sorted, then the built in ones.
    pub fn theme_names(&self) -> (names: Vec<String>)
        ensures
            string_views(names@) == self.custom_names() + self.builtin(),
    {
        let mut names: Vec<String> = Vec::new();
        let mut i: usize = 0;
        while i < self.custom_themes.len()
            invariant
                i <= self.custom_themes@.len(),
                names@.len() == i,
                string_views(names@) == self.custom_names().take(i as int),
            decreases self.custom_themes@.len() - i,
        {
            let ghost prev = names@;
            names.push(self.custom_themes[i].name.clone());
            proof {
                assert(names@ == prev.push(names@[i as int]));
                assert(names@[i as int]@ == self.custom_names()[i as int]);
                assert forall|k: int| 0 <= k < i + 1 implies (#[trigger] string_views(names@)[k]) == self.custom_names().take(i + 1)[k] by {
                    if k < i {
                        assert(names@[k] == prev[k]);
                        assert(string_views(prev)[k] == self.custom_names().take(i as int)[k]);
                    }
                }
            }
            i += 1;
            assert(string_views(names@) =~= self.custom_names().take(i as int));
        }
        let mut j: usize = 0;
        while j < self.builtin_names.len()
            invariant
                i == self.custom_themes@.len(),
                j <= self.builtin_names@.len(),
                names@.len() == i + j,
                string_views(names@) == self.custom_names() + self.builtin().take(
                    j as int,
                ),
            decreases self.builtin_names@.len() - j,
        {
            let ghost prev = names@;
            names.push(self.builtin_names[j].clone());
            proof {
                let target = self.custom_names() + self.builtin().take(j + 1);
                assert(names@[prev.len() as int]@ == self.builtin()[j as int]);
                assert forall|k: int| 0 <= k < names@.len() implies (#[trigger] string_views(names@)[k]) == target[k] by {
                    if k < prev.len() {
                        assert(names@[k] == prev[k]);
                        assert(string_views(prev)[k] == (self.custom_names()
                            + self.builtin().take(j as int))[k]);
                    }
                }
            }
            j += 1;
            assert(string_views(names@) =~= self.custom_names() + self.builtin().take(
                j as int,
            ));
        }
        assert(self.builtin().take(j as int) =~= self.builtin());
        assert(self.custom_names().take(i as int) =~= self.custom_names());
        names
    }
}

/// The order in which custom themes are resolved, and the ones left out because they extend
/// each other in a loop.
pub struct ExtensionPlan {
    pub order: Vec<String>,
    pub leftover: Vec<String>,
}

impl<T> PresentationThemeSet<T> {
    /// The custom theme the `i`-th custom theme extends, if it extends one that isn't built in.
    pub open spec fn custom_parent(&self, i: int) -> Option<Seq<char>> {
        match extends_view(self.custom_themes@[i].extends) {
            Some(b) => if listed(self.builtin(), b) {
                None
            } else {
                Some(b)
            },
            None => None,
        }
    }

    /// Whether some custom theme extends `b`, which is neither built in nor custom.
    pub open spec fn is_missing_base(&self, b: Seq<char>) -> bool {
        (exists|i: int| 0 <= i < self.custom_themes@.len() && #[trigger] self.custom_parent(i) == Some(b))
            && !listed(self.custom_names(), b)
    }

    /// The position of a custom theme's name.
    pub open spec fn position(&self, n: Seq<char>) -> int {
        choose|i: int| 0 <= i < self.custom_names().len() && self.custom_names()[i] == n
    }

    /// Whether an extension plan is sound: every custom theme is either resolved, once, or
    /// left out; a resolved theme comes after the custom theme it extends; a theme left out
    /// extends a custom theme that's left out too, so those form loops; and the ones left out
    /// are sorted.
    pub open spec fn sound_plan(&self, order: Seq<Seq<char>>, leftover: Seq<Seq<char>>) -> bool {
        &&& forall|n: Seq<char>|
            #![trigger listed(order, n)]
            #![trigger listed(leftover, n)]
            listed(self.custom_names(), n) == (listed(order, n) || listed(leftover, n))
        &&& forall|n: Seq<char>| !(#[trigger] listed(order, n) && listed(leftover, n))
        &&& forall|a: int, b: int| 0 <= a < b < order.len() ==> order[a] != order[b]
        &&& forall|k: int|
            0 <= k < order.len() ==> (#[trigger] self.custom_parent(self.position(order[k])) matches Some(
                base,
            ) ==> exists|e: int| 0 <= e < k && order[e] == base)
        &&& forall|k: int|
            0 <= k < leftover.len() ==> (#[trigger] self.custom_parent(
                self.position(leftover[k]),
            ) matches Some(base) && listed(leftover, base))
        &&& strictly_sorted(leftover)
    }
}

/// The number of entries not yet marked.
pub open spec fn unmarked(marks: Seq<bool>) -> nat
    decreases marks.len(),
{
    if marks.len() == 0 {
        0
    } else {
        unmarked(marks.drop_last()) + if marks.last() {
            0nat
        } else {
            1nat
        }
    }
}

/// Marking an unmarked entry leaves one fewer unmarked.
proof fn lemma_mark(marks: Seq<bool>, i: int)
    requires
        0 <= i < marks.len(),
        !marks[i],
    ensures
        unmarked(marks.update(i, true)) + 1 == unmarked(marks),
    decreases marks.len(),
{
    if i < marks.len() - 1 {
        lemma_mark(marks.drop_last(), i);
        assert(marks.update(i, true).drop_last() =~= marks.drop_last().update(i, true));
    } else {
        assert(marks.update(i, true).drop_last() =~= marks.drop_last());
    }
}

/// Whether some index occurs in a sequence.
pub open spec fn occurs(s: Seq<usize>, i: usize) -> bool {
    exists|k: int| 0 <= k < s.len() && s[k] == i
}

/// Whether the entries of a sequence are distinct.
pub open spec fn distinct(s: Seq<usize>) -> bool {
    forall|a: int, b: int| 0 <= a < b < s.len() ==> s[a] != s[b]
}

/// Resolves entries that depend on at most one other, given by index: each comes after the one
/// it depends on. Entries ready to go are kept on a stack; resolving one makes the entries that
/// depend on it ready, in index order. Entries caught in a loop are never resolved.
#[verifier::spinoff_prover]
pub fn resolve_order(parents: &Vec<Option<usize>>) -> (r: (Vec<usize>, Vec<bool>))
    requires
        forall|i: int| 0 <= i < parents@.len() ==> (#[trigger] parents@[i] matches Some(p) ==> p < parents@.len()),
    ensures
        r.1@.len() == parents@.len(),
        distinct(r.0@),
        forall|k: int| 0 <= k < r.0@.len() ==> #[trigger] r.0@[k] < parents@.len(),
        forall|i: int| 0 <= i < parents@.len() ==> (#[trigger] r.1@[i] == occurs(r.0@, i as usize)),
        forall|k: int|
            0 <= k < r.0@.len() ==> (#[trigger] parents@[r.0@[k] as int] matches Some(p) ==> exists|e: int|
                0 <= e < k && r.0@[e] == p),
        forall|i: int|
            0 <= i < parents@.len() && !r.1@[i] ==> (#[trigger] parents@[i] matches Some(p) && !r.1@[p as int]),
{
    let n = parents.len();
    let mut popped: Vec<bool> = Vec::new();
    let mut ready: Vec<usize> = Vec::new();
    let mut i: usize = 0;
    while i < n
        invariant
            i <= n == parents@.len(),
            popped@.len() == i,
            forall|k: int| 0 <= k < i ==> !popped@[k],
            distinct(ready@),
            forall|r: int| 0 <= r < ready@.len() ==> #[trigger] ready@[r] < i,
            forall|k: int| 0 <= k < i ==> (occurs(ready@, k as usize) == (#[trigger] parents@[k] is None)),
        decreases n - i,
    {
        popped.push(false);
        let ghost before = ready@;
        if parents[i].is_none() {
            ready.push(i);
        }
        proof {
            assert forall|k: int| 0 <= k < i + 1 implies (occurs(ready@, k as usize) == (
            #[trigger] parents@[k] is None)) by {
                if occurs(ready@, k as usize) {
                    let r = choose|r: int| 0 <= r < ready@.len() && ready@[r] == k as usize;
                    if r < before.len() {
                        assert(before[r] == k as usize);
                        assert(occurs(before, k as usize));
                    }
                }
                if k < i && occurs(before, k as usize) {
                    let r = choose|r: int| 0 <= r < before.len() && before[r] == k as usize;
                    assert(ready@[r] == k as usize);
                }
                if k == i && parents@[k] is None {
                    assert(ready@[ready@.len() - 1] == i);
                }
            }
            assert forall|a: int, b: int| 0 <= a < b < ready@.len() implies ready@[a] != ready@[b] by {
                if b == ready@.len() - 1 && ready@.len() > before.len() {
                    assert(ready@[a] == before[a]);
                }
            }
        }
        i += 1;
    }
    let mut order: Vec<usize> = Vec::new();
    while ready.len() > 0
        invariant
            n == parents@.len(),
            forall|i: int| 0 <= i < n ==> (#[trigger] parents@[i] matches Some(p) ==> p < n),
            popped@.len() == n,
            distinct(order@),
            distinct(ready@),
            forall|k: int| 0 <= k < order@.len() ==> #[trigger] order@[k] < n,
            forall|r: int| 0 <= r < ready@.len() ==> #[trigger] ready@[r] < n && !popped@[ready@[r] as int],
            forall|i: int| 0 <= i < n ==> (#[trigger] popped@[i] == occurs(order@, i as usize)),
            forall|i: int|
                0 <= i < n && !popped@[i] ==> (occurs(ready@, i as usize) == (#[trigger] parents@[i] matches Some(p)
                    ==> popped@[p as int])),
            forall|k: int|
                0 <= k < order@.len() ==> (#[trigger] parents@[order@[k] as int] matches Some(p) ==> exists|e: int|
                    0 <= e < k && order@[e] == p),
        decreases unmarked(popped@),
    {
        let ghost ready_old = ready@;
        let ghost popped_old = popped@;
        let ghost order_old = order@;
        let t = ready.pop().unwrap();
        let ghost ready_rest = ready@;
        proof {
            assert(ready_old == ready_rest.push(t));
            assert(!popped_old[t as int]);
            lemma_mark(popped@, t as int);
            assert forall|x: usize| occurs(ready_old, x) == (occurs(ready_rest, x) || x == t) by {
                if occurs(ready_old, x) {
                    let r = choose|r: int| 0 <= r < ready_old.len() && ready_old[r] == x;
                    if r < ready_rest.len() {
                        assert(ready_rest[r] == x);
                    }
                }
                if occurs(ready_rest, x) {
                    let r = choose|r: int| 0 <= r < ready_rest.len() && ready_rest[r] == x;
                    assert(ready_old[r] == x);
                }
                if x == t {
                    assert(ready_old[ready_old.len() - 1] == t);
                }
            }
            assert(!occurs(ready_rest, t)) by {
                if occurs(ready_rest, t) {
                    let r = choose|r: int| 0 <= r < ready_rest.len() && ready_rest[r] == t;
                    assert(ready_old[r] == ready_old[ready_old.len() - 1]);
                }
            }
        }
        popped.set(t, true);
        order.push(t);
        proof {
            assert forall|i: int| 0 <= i < n implies (#[trigger] popped@[i] == occurs(order@, i as usize)) by {
                if i == t {
                    assert(order@[order@.len() - 1] == t);
                } else {
                    assert(popped@[i] == popped_old[i]);
                    if occurs(order@, i as usize) {
                        let k = choose|k: int| 0 <= k < order@.len() && order@[k] == i as usize;
                        assert(order_old[k] == i as usize);
                    }
                    if occurs(order_old, i as usize) {
                        let k = choose|k: int| 0 <= k < order_old.len() && order_old[k] == i as usize;
                        assert(order@[k] == i as usize);
                    }
                }
            }
            assert forall|a: int, b: int| 0 <= a < b < order@.len() implies order@[a] != order@[b] by {
                if b == order@.len() - 1 {
                    assert(order@[a] == order_old[a]);
                    if order_old[a] == t {
                        assert(occurs(order_old, t));
                    }
                }
            }
            // The theme just resolved comes after the one it extends.
            assert forall|k: int|
                0 <= k < order@.len() implies (#[trigger] parents@[order@[k] as int] matches Some(p) ==> exists|e: int|
                    0 <= e < k && order@[e] == p) by {
                if k < order@.len() - 1 {
                    assert(order@[k] == order_old[k]);
                    if let Some(p) = parents@[order@[k] as int] {
                        let e = choose|e: int| 0 <= e < k && order_old[e] == p;
                        assert(order@[e] == p);
                    }
                } else {
                    assert(occurs(ready_old, t));
                    if let Some(p) = parents@[t as int] {
                        assert(popped_old[p as int]);
                        let e = choose|e: int| 0 <= e < order_old.len() && order_old[e] == p;
                        assert(order@[e] == p);
                    }
                }
            }
            // Themes that extend the one just resolved were neither resolved nor ready.
            assert forall|c: int| 0 <= c < n && #[trigger] parents@[c] == Some(t) implies !popped@[c]
                && !occurs(ready_rest, c as usize) by {
                if c == t {
                    assert(occurs(ready_old, t));
                    assert(!popped_old[t as int]);
                } else {
                    if popped_old[c] {
                        let k = choose|k: int| 0 <= k < order_old.len() && order_old[k] == c as usize;
                        let e = choose|e: int| 0 <= e < k && order_old[e] == t;
                        assert(occurs(order_old, t));
                    }
                    assert(!occurs(ready_old, c as usize));
                }
            }
        }
        let mut j: usize = 0;
        while j < n
            invariant
                n == parents@.len(),
                forall|i: int| 0 <= i < n ==> (#[trigger] parents@[i] matches Some(p) ==> p < n),
                t < n,
                popped@.len() == n,
                popped@[t as int],
                j <= n,
                distinct(ready@),
                ready@.len() >= ready_rest.len(),
                ready@.take(ready_rest.len() as int) == ready_rest,
                forall|r: int| 0 <= r < ready@.len() ==> #[trigger] ready@[r] < n && !popped@[ready@[r] as int],
                forall|r: int|
                    ready_rest.len() <= r < ready@.len() ==> (#[trigger] parents@[ready@[r] as int]) == Some(t),
                forall|r: int| ready_rest.len() <= r < ready@.len() ==> #[trigger] ready@[r] < j,
                forall|c: int| 0 <= c < j && #[trigger] parents@[c] == Some(t) ==> occurs(ready@, c as usize),
                forall|c: int|
                    0 <= c < n && #[trigger] parents@[c] == Some(t) ==> !popped@[c] && !occurs(
                        ready_rest,
                        c as usize,
                    ),
            decreases n - j,
        {
            let is_child = match parents[j] {
                Some(p) => p == t,
                None => false,
            };
            if is_child {
                let ghost before = ready@;
                assert(parents@[j as int] == Some(t));
                ready.push(j);
                proof {
                    assert(ready@[ready@.len() - 1] == j);
                    assert forall|a: int, b: int| 0 <= a < b < ready@.len() implies ready@[a] != ready@[b] by {
                        if b == ready@.len() - 1 {
                            assert(ready@[a] == before[a]);
                            if a < ready_rest.len() {
                                assert(before[a] == ready_rest[a]);
                                if ready_rest[a] == j {
                                    assert(occurs(ready_rest, j));
                                }
                            }
                        }
                    }
                    assert(ready@.take(ready_rest.len() as int) =~= before.take(ready_rest.len() as int));
                    assert forall|r: int| ready_rest.len() <= r < ready@.len() implies (#[trigger] parents@[ready@[r] as int])
                        == Some(t) by {
                        if r < before.len() {
                            assert(ready@[r] == before[r]);
                        }
                    }
                    assert forall|r: int| ready_rest.len() <= r < ready@.len() implies #[trigger] ready@[r] < j + 1 by {
                        if r < before.len() {
                            assert(ready@[r] == before[r]);
                        }
                    }
                    assert forall|c: int| 0 <= c < j + 1 && #[trigger] parents@[c] == Some(t) implies occurs(
                        ready@,
                        c as usize,
                    ) by {
                        if c < j {
                            let r = choose|r: int| 0 <= r < before.len() && before[r] == c as usize;
                            assert(ready@[r] == c as usize);
                        } else {
                            assert(ready@[ready@.len() - 1] == j);
                        }
                    }
                }
            } else {
                proof {
                    assert forall|r: int| ready_rest.len() <= r < ready@.len() implies #[trigger] ready@[r] < j + 1 by {
                    }
                    assert forall|c: int| 0 <= c < j + 1 && #[trigger] parents@[c] == Some(t) implies occurs(
                        ready@,
                        c as usize,
                    ) by {
                    }
                }
            }
            j += 1;
        }
        proof {
            assert forall|i: int|
                0 <= i < n && !popped@[i] implies (occurs(ready@, i as usize) == (#[trigger] parents@[i] matches Some(p)
                ==> popped@[p as int])) by {
                assert(i != t);
                assert(popped@[i] == popped_old[i]);
                if parents@[i] == Some(t) {
                } else {
                    if let Some(p) = parents@[i] {
                        assert(p != t);
                        assert(popped@[p as int] == popped_old[p as int]);
                    }
                    if occurs(ready@, i as usize) {
                        let r = choose|r: int| 0 <= r < ready@.len() && ready@[r] == i as usize;
                        if r < ready_rest.len() {
                            assert(ready_rest[r] == i as usize);
                            assert(occurs(ready_rest, i as usize));
                        }
                    }
                    if occurs(ready_rest, i as usize) {
                        let r = choose|r: int| 0 <= r < ready_rest.len() && ready_rest[r] == i as usize;
                        assert(ready@[r] == i as usize);
                    }
                    assert(occurs(ready_old, i as usize) == occurs(ready_rest, i as usize));
                }
            }
        }
    }
    (order, popped)
}

impl<T> PresentationThemeSet<T> {
    /// In a well formed set, a name's position is where it is.
    proof fn lemma_position(&self, i: int)
        requires
            self.wf(),
            0 <= i < self.custom_names().len(),
        ensures
            self.position(self.custom_names()[i]) == i,
    {
        let n = self.custom_names()[i];
        let p = self.position(n);
        assert(0 <= p < self.custom_names().len() && self.custom_names()[p] == n);
        if p != i {
            if p < i {
                assert(lex_lt(self.custom_names()[p], self.custom_names()[i]));
            } else {
                assert(lex_lt(self.custom_names()[i], self.custom_names()[p]));
            }
            lemma_lex_irreflexive(n);
        }
    }

    /// The custom theme each custom theme extends, by position; or the smallest name that a
    /// theme extends and that is neither built in nor custom.
    fn resolve_parents(&self) -> (r: Result<Vec<Option<usize>>, Vec<char>>)
        requires
            self.wf(),
        ensures
            r matches Err(m) ==> self.is_missing_base(m@) && forall|b: Seq<char>|
                #![trigger self.is_missing_base(b)]
                self.is_missing_base(b) ==> !lex_lt(b, m@),
            r matches Ok(ps) ==> ps@.len() == self.custom_names().len() && (forall|i: int|
                0 <= i < ps@.len() ==> match #[trigger] ps@[i] {
                    Some(j) => j < ps@.len() && self.custom_parent(i) == Some(self.custom_names()[j as int]),
                    None => self.custom_parent(i) is None,
                }),
    {
        let n = self.custom_themes.len();
        let mut ps: Vec<Option<usize>> = Vec::new();
        let mut best: Option<Vec<char>> = None;
        let mut i: usize = 0;
        while i < n
            invariant
                n == self.custom_themes@.len() == self.custom_names().len(),
                self.wf(),
                i <= n,
                ps@.len() == i,
                forall|k: int|
                    0 <= k < i ==> match #[trigger] ps@[k] {
                        Some(j) => j < n && self.custom_parent(k) == Some(self.custom_names()[j as int]),
                        None => self.custom_parent(k) matches Some(b) ==> !listed(self.custom_names(), b),
                    },
                best matches Some(m) ==> self.is_missing_base(m@) && forall|k: int|
                    0 <= k < i ==> (#[trigger] self.custom_parent(k) matches Some(b) ==> (!listed(
                        self.custom_names(),
                        b,
                    ) ==> !lex_lt(b, m@))),
                best is None ==> forall|k: int|
                    0 <= k < i ==> (#[trigger] self.custom_parent(k) matches Some(b) ==> listed(
                        self.custom_names(),
                        b,
                    )),
            decreases n - i,
        {
            match &self.custom_themes[i].extends {
                None => {
                    ps.push(None);
                },
                Some(base) => {
                    if self.is_builtin(base.as_str()) {
                        ps.push(None);
                    } else {
                        let (at, found) = self.position_of(base.as_str());
                        if found {
                            ps.push(Some(at));
                        } else {
                            let chars = str_chars(base.as_str());
                            proof {
                                assert(self.custom_parent(i as int) == Some(base@));
                                assert(!listed(self.custom_names(), base@));
                            }
                            let replace = match &best {
                                None => true,
                                Some(m) => lex_less(chars.as_slice(), m.as_slice()),
                            };
                            if replace {
                                proof {
                                    assert(self.is_missing_base(chars@));
                                    if let Some(m) = best {
                                        assert forall|k: int|
                                            0 <= k < i + 1 implies (#[trigger] self.custom_parent(k) matches Some(b)
                                            ==> (!listed(self.custom_names(), b) ==> !lex_lt(b, chars@))) by {
                                            if k < i {
                                                if let Some(b) = self.custom_parent(k) {
                                                    if !listed(self.custom_names(), b) && lex_lt(b, chars@) {
                                                        lemma_lex_transitive(b, chars@, m@);
                                                    }
                                                }
                                            } else {
                                                lemma_lex_irreflexive(chars@);
                                            }
                                        }
                                    } else {
                                        assert forall|k: int|
                                            0 <= k < i + 1 implies (#[trigger] self.custom_parent(k) matches Some(b)
                                            ==> (!listed(self.custom_names(), b) ==> !lex_lt(b, chars@))) by {
                                            lemma_lex_irreflexive(chars@);
                                        }
                                    }
                                }
                                best = Some(chars);
                            }
                            ps.push(None);
                        }
                    }
                },
            }
            proof {
                assert forall|k: int|
                    0 <= k < i + 1 implies match #[trigger] ps@[k] {
                        Some(j) => j < n && self.custom_parent(k) == Some(self.custom_names()[j as int]),
                        None => self.custom_parent(k) matches Some(b) ==> !listed(self.custom_names(), b),
                    } by {
                    if k == i {
                        if let Some(b) = self.custom_parent(k) {
                            if ps@[k] is None {
                                assert(!listed(self.custom_names(), b));
                            }
                        }
                    }
                }
            }
            i += 1;
        }
        match best {
            Some(m) => {
                proof {
                    assert forall|b: Seq<char>| #![trigger self.is_missing_base(b)] self.is_missing_base(b) implies !lex_lt(
                        b,
                        m@,
                    ) by {
                        let k = choose|k: int| 0 <= k < self.custom_themes@.len() && #[trigger] self.custom_parent(k) == Some(b);
                    }
                }
                Err(m)
            },
            None => {
                proof {
                    assert forall|k: int| 0 <= k < ps@.len() implies match #[trigger] ps@[k] {
                        Some(j) => j < ps@.len() && self.custom_parent(k) == Some(self.custom_names()[j as int]),
                        None => self.custom_parent(k) is None,
                    } by {
                        if ps@[k] is None {
                            if let Some(b) = self.custom_parent(k) {
                                assert(listed(self.custom_names(), b));
                            }
                        }
                    }
                }
                Ok(ps)
            },
        }
    }
}

impl<T> PresentationThemeSet<T> {
    /// The order in which custom themes that extend others are to be resolved, each after the
    /// custom theme it extends, and the ones caught in extension loops; or, when a theme
    /// extends one that is neither built in nor custom, an error naming the smallest such name.
    pub fn extension_plan(&self) -> (r: Result<ExtensionPlan, LoadThemeError>)
        requires
            self.wf(),
        ensures
            (exists|b: Seq<char>| self.is_missing_base(b)) ==> (r matches Err(
                LoadThemeError::ExtendedThemeNotFound(m),
            ) && self.is_missing_base(m@) && forall|b: Seq<char>|
                #![trigger self.is_missing_base(b)]
                self.is_missing_base(b) ==> !lex_lt(b, m@)),
            !(exists|b: Seq<char>| self.is_missing_base(b)) ==> (r matches Ok(plan)
                && self.sound_plan(string_views(plan.order@), string_views(plan.leftover@))),
    {
        let parents = match self.resolve_parents() {
            Ok(ps) => ps,
            Err(m) => {
                return Err(LoadThemeError::ExtendedThemeNotFound(string_from_chars(m.as_slice())));
            },
        };
        proof {
            assert forall|b: Seq<char>| !self.is_missing_base(b) by {
                if self.is_missing_base(b) {
                    let k = choose|k: int| 0 <= k < self.custom_themes@.len() && #[trigger] self.custom_parent(k) == Some(b);
                    match parents@[k] {
                        Some(j) => {
                            assert(listed(self.custom_names(), b));
                        },
                        None => {},
                    }
                }
            }
        }
        let ghost names = self.custom_names();
        let n = parents.len();
        let (order, popped) = resolve_order(&parents);
        let mut order_names: Vec<String> = Vec::new();
        let mut k: usize = 0;
        while k < order.len()
            invariant
                k <= order@.len(),
                n == parents@.len() == names.len() == self.custom_themes@.len(),
                names == self.custom_names(),
                forall|e: int| 0 <= e < order@.len() ==> #[trigger] order@[e] < n,
                order_names@.len() == k,
                forall|e: int| 0 <= e < k ==> (#[trigger] order_names@[e])@ == names[order@[e] as int],
            decreases order@.len() - k,
        {
            order_names.push(self.custom_themes[order[k]].name.clone());
            k += 1;
        }
        let mut leftover: Vec<String> = Vec::new();
        let ghost mut left_idx: Seq<int> = Seq::empty();
        let mut i: usize = 0;
        while i < n
            invariant
                i <= n,
                n == parents@.len() == names.len() == self.custom_themes@.len() == popped@.len(),
                names == self.custom_names(),
                leftover@.len() == left_idx.len(),
                forall|e: int| 0 <= e < left_idx.len() ==> 0 <= #[trigger] left_idx[e] < i,
                forall|e: int| 0 <= e < left_idx.len() ==> !popped@[#[trigger] left_idx[e]],
                forall|e: int| 0 <= e < left_idx.len() ==> (#[trigger] leftover@[e])@ == names[left_idx[e]],
                forall|a: int, b: int| 0 <= a < b < left_idx.len() ==> left_idx[a] < left_idx[b],
                forall|x: int| 0 <= x < i && !popped@[x] ==> exists|e: int| 0 <= e < left_idx.len() && left_idx[e] == x,
            decreases n - i,
        {
            let ghost old_left = left_idx;
            if !popped[i] {
                leftover.push(self.custom_themes[i].name.clone());
                proof {
                    left_idx = left_idx.push(i as int);
                }
            }
            proof {
                assert forall|x: int| 0 <= x < i + 1 && !popped@[x] implies exists|e: int|
                    0 <= e < left_idx.len() && left_idx[e] == x by {
                    if x == i {
                        assert(left_idx[left_idx.len() - 1] == x);
                    } else {
                        let e = choose|e: int| 0 <= e < old_left.len() && old_left[e] == x;
                        assert(left_idx[e] == old_left[e]);
                    }
                }
            }
            i += 1;
        }
        proof {
            let ov = string_views(order_names@);
            let lv = string_views(leftover@);
            assert forall|e: int| 0 <= e < names.len() implies self.position(#[trigger] names[e]) == e by {
                self.lemma_position(e);
            }
            assert forall|nm: Seq<char>|
                #![trigger listed(ov, nm)]
                #![trigger listed(lv, nm)]
                listed(names, nm) == (listed(ov, nm) || listed(lv, nm)) by {
                if listed(names, nm) {
                    let x = choose|x: int| 0 <= x < names.len() && names[x] == nm;
                    if popped@[x] {
                        let e = choose|e: int| 0 <= e < order@.len() && order@[e] == x as usize;
                        assert(ov[e] == nm);
                    } else {
                        let e = choose|e: int| 0 <= e < left_idx.len() && left_idx[e] == x;
                        assert(lv[e] == nm);
                    }
                }
                if listed(ov, nm) {
                    let e = choose|e: int| 0 <= e < ov.len() && ov[e] == nm;
                    assert(names[order@[e] as int] == nm);
                }
                if listed(lv, nm) {
                    let e = choose|e: int| 0 <= e < lv.len() && lv[e] == nm;
                    assert(names[left_idx[e]] == nm);
                }
            }
            assert forall|nm: Seq<char>| !(#[trigger] listed(ov, nm) && listed(lv, nm)) by {
                if listed(ov, nm) && listed(lv, nm) {
                    let e1 = choose|e: int| 0 <= e < ov.len() && ov[e] == nm;
                    let e2 = choose|e: int| 0 <= e < lv.len() && lv[e] == nm;
                    let x1 = order@[e1] as int;
                    let x2 = left_idx[e2];
                    assert(names[x1] == nm && names[x2] == nm);
                    assert(self.position(names[x1]) == x1);
                    assert(self.position(names[x2]) == x2);
                    assert(popped@[x1]);
                }
            }
            assert forall|a: int, b: int| 0 <= a < b < ov.len() implies ov[a] != ov[b] by {
                let xa = order@[a] as int;
                let xb = order@[b] as int;
                assert(self.position(names[xa]) == xa);
                assert(self.position(names[xb]) == xb);
            }
            assert forall|e: int| 0 <= e < ov.len() implies (#[trigger] self.custom_parent(self.position(ov[e])) matches Some(
                base,
            ) ==> exists|f: int| 0 <= f < e && ov[f] == base) by {
                let x = order@[e] as int;
                assert(ov[e] == names[x]);
                assert(self.position(names[x]) == x);
                if let Some(base) = self.custom_parent(x) {
                    if let Some(p) = parents@[x] {
                        let f = choose|f: int| 0 <= f < e && order@[f] == p;
                        assert(ov[f] == names[p as int]);
                    }
                }
            }
            assert forall|e: int| 0 <= e < lv.len() implies (#[trigger] self.custom_parent(
                self.position(lv[e]),
            ) matches Some(base) && listed(lv, base)) by {
                let x = left_idx[e];
                assert(lv[e] == names[x]);
                assert(self.position(names[x]) == x);
                if let Some(p) = parents@[x] {
                    assert(!popped@[p as int]);
                    let f = choose|f: int| 0 <= f < left_idx.len() && left_idx[f] == p as int;
                    assert(lv[f] == names[p as int]);
                }
            }
            assert forall|a: int, b: int| 0 <= a < b < lv.len() implies lex_lt(lv[a], lv[b]) by {
                assert(lv[a] == names[left_idx[a]]);
                assert(lv[b] == names[left_idx[b]]);
            }
        }
        Ok(ExtensionPlan { order: order_names, leftover })
    }
}

/// A text with every trailing copy of `suffix` removed, as `str::trim_end_matches` gives it.
pub open spec fn strip_suffixes(s: Seq<char>, suffix: Seq<char>) -> Seq<char>
    decreases s.len(),
{
    if suffix.len() > 0 && s.len() >= suffix.len() && s.subrange(
        s.len() - suffix.len(),
        s.len() as int,
    ) == suffix {
        strip_suffixes(s.take(s.len() - suffix.len()), suffix)
    } else {
        s
    }
}

/// The name of the theme in a file: the file name without its `.yaml` endings, for files that
/// end in `.yaml`.
pub open spec fn theme_file_name(file_name: Seq<char>) -> Option<Seq<char>> {
    let suffix = seq!['.', 'y', 'a', 'm', 'l'];
    if file_name.len() >= 5 && file_name.subrange(file_name.len() - 5, file_name.len() as int)
        == suffix {
        Some(strip_suffixes(file_name, suffix))
    } else {
        None
    }
}

/// Whether `s` ends with `.yaml`.
fn ends_with_yaml(s: &[char], end: usize) -> (b: bool)
    requires
        end <= s@.len(),
    ensures
        b == (end >= 5 && s@.subrange(end - 5, end as int) == seq!['.', 'y', 'a', 'm', 'l']),
{
    if end < 5 {
        return false;
    }
    let b = s[end - 5] == '.' && s[end - 4] == 'y' && s[end - 3] == 'a' && s[end - 2] == 'm' && s[end
        - 1] == 'l';
    proof {
        let t = s@.subrange(end - 5, end as int);
        if b {
            assert(t =~= seq!['.', 'y', 'a', 'm', 'l']);
        } else {
            if t == seq!['.', 'y', 'a', 'm', 'l'] {
                assert(t[0] == s@[end - 5]);
                assert(t[1] == s@[end - 4]);
                assert(t[2] == s@[end - 3]);
                assert(t[3] == s@[end - 2]);
                assert(t[4] == s@[end - 1]);
            }
        }
    }
    b
}

/// The name of the theme in a file, for files that end in `.yaml`.
pub fn theme_name_of(file_name: &str) -> (r: Option<String>)
    ensures
        match theme_file_name(file_name@) {
            Some(n) => r matches Some(s) && s@ == n,
            None => r is None,
        },
{
    let chars = str_chars(file_name);
    if !ends_with_yaml(chars.as_slice(), chars.len()) {
        return None;
    }
    let mut end = chars.len();
    assert(chars@.take(end as int) =~= chars@);
    while ends_with_yaml(chars.as_slice(), end)
        invariant
            end <= chars@.len(),
            chars@ == file_name@,
            strip_suffixes(file_name@, seq!['.', 'y', 'a', 'm', 'l']) == strip_suffixes(
                chars@.take(end as int),
                seq!['.', 'y', 'a', 'm', 'l'],
            ),
        decreases end,
    {
        proof {
            let t = chars@.take(end as int);
            assert(t.subrange(t.len() - 5, t.len() as int) =~= chars@.subrange(end - 5, end as int));
            assert(t.take(t.len() - 5) =~= chars@.take(end - 5));
        }
        end -= 5;
    }
    proof {
        let t = chars@.take(end as int);
        if t.len() >= 5 {
            assert(t.subrange(t.len() - 5, t.len() as int) =~= chars@.subrange(end - 5, end as int));
        }
    }
    let mut name: Vec<char> = Vec::new();
    let mut k: usize = 0;
    while k < end
        invariant
            k <= end <= chars@.len(),
            name@ == chars@.take(k as int),
        decreases end - k,
    {
        name.push(chars[k]);
        k += 1;
        assert(name@ =~= chars@.take(k as int));
    }
    Some(string_from_chars(name.as_slice()))
}

impl<T> PresentationThemeSet<T> {
    /// The custom theme with the given name, if any.
    pub fn custom_theme(&self, name: &str) -> (r: Option<&T>)
        requires
            self.wf(),
        ensures
            match r {
                Some(t) => exists|k: int|
                    0 <= k < self.custom_themes@.len() && self.custom_names()[k] == name@
                        && self.custom_themes@[k].theme == *t,
                None => !listed(self.custom_names(), name@),
            },
    {
        let (at, found) = self.position_of(name);
        if found {
            Some(&self.custom_themes[at].theme)
        } else {
            None
        }
    }
}

/// A theme could not be found.
#[derive(Clone, Copy, Debug, PartialEq, Eq, Structural)]
pub struct ThemeNotFound;

/// Whether a theme of this name can be loaded: a custom one, or a built in one.
pub open spec fn theme_loads<T>(s: PresentationThemeSet<T>, name: Seq<char>) -> bool {
    listed(s.custom_names(), name) || listed(s.builtin(), name)
}

/// Whether no name appears twice.
pub open spec fn distinct_names(names: Seq<Seq<char>>) -> bool {
    forall|i: int, j: int| 0 <= i < j < names.len() ==> names[i] != names[j]
}

/// The names of a theme set, as `theme_names` lists them (the custom names in ascending order,
/// then the built in ones), are exactly the names whose theme loads, each once, when the
/// built in names don't repeat and no custom theme has a built in name (which adding custom
/// themes from a directory ensures).
pub proof fn lemma_theme_names_are_the_themes<T>(s: PresentationThemeSet<T>, x: Seq<char>)
    requires
        s.wf(),
        distinct_names(s.builtin()),
        forall|i: int| 0 <= i < s.custom_names().len() ==> !listed(s.builtin(), #[trigger] s.custom_names()[i]),
    ensures
        listed(s.custom_names() + s.builtin(), x) <==> theme_loads(s, x),
        distinct_names(s.custom_names() + s.builtin()),
        strictly_sorted(s.custom_names()),
{
    let c = s.custom_names();
    let b = s.builtin();
    let all = c + b;
    if listed(all, x) {
        let i = choose|i: int| 0 <= i < all.len() && all[i] == x;
        if i < c.len() {
            assert(c[i] == x);
        } else {
            assert(b[i - c.len()] == x);
        }
    }
    if listed(c, x) {
        let i = choose|i: int| 0 <= i < c.len() && c[i] == x;
        assert(all[i] == x);
    }
    if listed(b, x) {
        let i = choose|i: int| 0 <= i < b.len() && b[i] == x;
        assert(all[i + c.len()] == x);
    }
    assert forall|i: int, j: int| 0 <= i < j < all.len() implies all[i] != all[j] by {
        if j < c.len() {
            lemma_lex_irreflexive(c[i]);
            assert(lex_lt(c[i], c[j]));
        } else if i < c.len() {
            assert(all[j] == b[j - c.len()]);
            if all[i] == all[j] {
                assert(listed(b, c[i]));
            }
        } else {
            assert(all[i] == b[i - c.len()] && all[j] == b[j - c.len()]);
        }
    }
}

} // verus!
