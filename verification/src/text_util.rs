//! Helpers over `str`/`String` that the rest of the library relies on.
use vstd::prelude::*;

verus! {

/// Appends a character to a string.
///
/// Calls `String::push`, which appends the character at the end.
#[verifier::external_body]
pub(crate) fn string_push(s: &mut String, c: char)
    ensures
        final(s)@ == old(s)@.push(c),
{
    s.push(c);
}

/// The characters of a string slice, in order.
pub fn str_chars(s: &str) -> (v: Vec<char>)
    ensures
        v@ == s@,
{
    let mut v: Vec<char> = Vec::new();
    for c in it: s.chars()
        invariant
            v@ == it.seq().take(it.index() as int),
            it.seq() == s@,
    {
        v.push(c);
    }
    v
}

/// A string holding the given characters, in order.
pub fn string_from_chars(v: &[char]) -> (s: String)
    ensures
        s@ == v@,
{
    let mut s = String::new();
    let mut i: usize = 0;
    while i < v.len()
        invariant
            i <= v.len(),
            s@ == v@.take(i as int),
        decreases v.len() - i,
    {
        string_push(&mut s, v[i]);
        i += 1;
        assert(v@.take(i as int) == v@.take((i - 1) as int).push(v@[i - 1]));
    }
    assert(v@.take(v.len() as int) == v@);
    s
}

/// Whether two character sequences are equal.
pub fn chars_eq(a: &[char], b: &[char]) -> (r: bool)
    ensures
        r == (a@ == b@),
{
    if a.len() != b.len() {
        return false;
    }
    let mut i: usize = 0;
    while i < a.len()
        invariant
            i <= a.len(),
            a.len() == b.len(),
            forall|j: int| 0 <= j < i ==> a@[j] == b@[j],
        decreases a.len() - i,
    {
        if a[i] != b[i] {
            return false;
        }
        i += 1;
    }
    assert(a@ =~= b@);
    true
}

/// Whether a character sequence spells the given string.
pub fn chars_eq_str(a: &[char], b: &str) -> (r: bool)
    ensures
        r == (a@ == b@),
{
    let bv = str_chars(b);
    chars_eq(a, bv.as_slice())
}

/// A string made of `n` copies of `c`.
pub fn repeat_char(c: char, n: usize) -> (s: String)
    ensures
        s@ == Seq::new(n as nat, |_i: int| c),
{
    let mut s = String::new();
    let mut i: usize = 0;
    while i < n
        invariant
            i <= n,
            s@ == Seq::new(i as nat, |_i: int| c),
        decreases n - i,
    {
        string_push(&mut s, c);
        i += 1;
        assert(s@ =~= Seq::new(i as nat, |_i: int| c));
    }
    s
}

/// The decimal digits of a number, most significant first, with no leading zero ("0" for 0).
pub open spec fn decimal(n: nat) -> Seq<char>
    decreases n,
{
    if n < 10 {
        seq![digit_char(n)]
    } else {
        decimal(n / 10).push(digit_char(n % 10))
    }
}

/// The character of a decimal digit.
pub open spec fn digit_char(d: nat) -> char {
    ((d + '0' as nat) as u8) as char
}

proof fn lemma_decimal_nonempty(n: nat)
    ensures
        decimal(n).len() >= 1,
    decreases n,
{
    if n >= 10 {
        lemma_decimal_nonempty(n / 10);
    }
}

/// A larger number takes at least as many digits.
pub proof fn lemma_decimal_monotone(a: nat, b: nat)
    requires
        a <= b,
    ensures
        decimal(a).len() <= decimal(b).len(),
    decreases b,
{
    if b >= 10 {
        if a >= 10 {
            lemma_decimal_monotone(a / 10, b / 10);
        } else {
            lemma_decimal_nonempty(b / 10);
        }
    }
}

/// The decimal text of a number.
pub fn usize_to_string(n: usize) -> (s: String)
    ensures
        s@ == decimal(n as nat),
{
    let mut digits: Vec<char> = Vec::new();
    let mut rest: usize = n;
    // Collect the digits from the least significant one.
    while rest >= 10
        invariant
            decimal(n as nat) == decimal(rest as nat) + digits@.reverse(),
        decreases rest,
    {
        let d = rest % 10;
        let c = ((d as u8) + ('0' as u8)) as char;
        assert(c == digit_char(d as nat));
        let ghost before = digits@;
        digits.push(c);
        proof {
            assert(decimal(rest as nat) == decimal((rest / 10) as nat).push(c));
            assert(digits@.reverse() =~= seq![c] + before.reverse());
            assert(decimal((rest / 10) as nat).push(c) + before.reverse() =~= decimal(
                (rest / 10) as nat,
            ) + digits@.reverse());
        }
        rest = rest / 10;
    }
    let c = ((rest as u8) + ('0' as u8)) as char;
    assert(c == digit_char(rest as nat));
    let ghost before = digits@;
    digits.push(c);
    proof {
        assert(decimal(rest as nat) =~= seq![c]);
        assert(digits@.reverse() =~= seq![c] + before.reverse());
    }
    let mut out = String::new();
    let mut i: usize = digits.len();
    while i > 0
        invariant
            i <= digits@.len(),
            out@ == digits@.subrange(i as int, digits@.len() as int).reverse(),
            decimal(n as nat) == digits@.reverse(),
        decreases i,
    {
        i -= 1;
        string_push(&mut out, digits[i]);
        proof {
            assert(digits@.subrange(i as int, digits@.len() as int).reverse() =~= digits@.subrange(
                i + 1,
                digits@.len() as int,
            ).reverse().push(digits@[i as int]));
        }
    }
    proof {
        assert(digits@.subrange(0, digits@.len() as int) =~= digits@);
    }
    out
}

/// The index of the first line feed at or after `from`, or the length when there's none.
pub open spec fn next_newline(s: Seq<char>, from: int) -> int
    decreases s.len() - from,
{
    if from >= s.len() {
        s.len() as int
    } else if s[from] == '\n' {
        from
    } else {
        next_newline(s, from + 1)
    }
}

/// A line without its line ending: a line feed was removed, and a carriage return right before
/// it too.
pub open spec fn strip_cr(line: Seq<char>, had_newline: bool) -> Seq<char> {
    if had_newline && line.len() > 0 && line.last() == '\r' {
        line.drop_last()
    } else {
        line
    }
}

/// The lines of a text, as `str::lines` splits them: at each line feed, removing a carriage
/// return right before it; a final line ending adds no empty line.
pub open spec fn lines_of(s: Seq<char>) -> Seq<Seq<char>>
    decreases s.len(),
{
    if s.len() == 0 {
        Seq::empty()
    } else {
        let end = next_newline(s, 0);
        let had_newline = end < s.len();
        let rest = if had_newline {
            s.subrange(end + 1, s.len() as int)
        } else {
            Seq::empty()
        };
        proof {
            lemma_next_newline_bounds(s, 0);
        }
        seq![strip_cr(s.subrange(0, end), had_newline)] + lines_of(rest)
    }
}

pub proof fn lemma_next_newline_bounds(s: Seq<char>, from: int)
    requires
        0 <= from,
    ensures
        from <= next_newline(s, from) || from > s.len(),
        next_newline(s, from) <= s.len(),
        next_newline(s, from) < s.len() ==> s[next_newline(s, from)] == '\n',
        forall|i: int| from <= i < next_newline(s, from) ==> s[i] != '\n',
    decreases s.len() - from,
{
    if from < s.len() && s[from] != '\n' {
        lemma_next_newline_bounds(s, from + 1);
    }
}

/// The line at `index` of a text, as `str::lines` gives them, or nothing past the last one.
pub fn nth_line(s: &[char], index: usize) -> (line: Option<Vec<char>>)
    ensures
        index < lines_of(s@).len() ==> (line matches Some(l) && l@ == lines_of(s@)[index as int]),
        index >= lines_of(s@).len() ==> line is None,
{
    let mut start: usize = 0;
    let mut k: usize = 0;
    assert(s@.subrange(0, s@.len() as int) =~= s@);
    while start < s.len()
        invariant
            start <= s@.len(),
            k <= index,
            lines_of(s@).len() == k + lines_of(s@.subrange(start as int, s@.len() as int)).len(),
            forall|j: int|
                k <= j < lines_of(s@).len() ==> #[trigger] lines_of(s@)[j] == lines_of(
                    s@.subrange(start as int, s@.len() as int),
                )[j - k],
        decreases s@.len() - start,
    {
        let ghost rest = s@.subrange(start as int, s@.len() as int);
        let mut end: usize = start;
        while end < s.len() && s[end] != '\n'
            invariant
                start <= end <= s@.len(),
                forall|i: int| start <= i < end ==> s@[i] != '\n',
            decreases s@.len() - end,
        {
            end += 1;
        }
        proof {
            lemma_next_newline_bounds(rest, 0);
            let e = next_newline(rest, 0);
            if e < end - start {
                assert(rest[e] == s@[start + e]);
            }
            if end - start < e {
                assert(rest[end - start] == s@[end as int]);
            }
            assert(e == end - start);
        }
        let had_newline = end < s.len();
        let mut stop = end;
        if had_newline && end > start && s[end - 1] == '\r' {
            stop = end - 1;
        }
        let ghost next_start: int = if had_newline { end + 1 } else { s@.len() as int };
        proof {
            let r2 = if had_newline {
                rest.subrange(end - start + 1, rest.len() as int)
            } else {
                Seq::<char>::empty()
            };
            assert(r2 =~= s@.subrange(next_start, s@.len() as int));
            assert(lines_of(rest) == seq![strip_cr(rest.subrange(0, end - start), had_newline)]
                + lines_of(r2));
            assert(strip_cr(rest.subrange(0, end - start), had_newline) =~= s@.subrange(
                start as int,
                stop as int,
            ));
        }
        if k == index {
            let mut line: Vec<char> = Vec::new();
            let mut i: usize = start;
            while i < stop
                invariant
                    start <= i <= stop,
                    stop <= s@.len(),
                    line@ == s@.subrange(start as int, i as int),
                decreases stop - i,
            {
                line.push(s[i]);
                i += 1;
                assert(line@ =~= s@.subrange(start as int, i as int));
            }
            return Some(line);
        }
        k += 1;
        start = if had_newline { end + 1 } else { s.len() };
    }
    proof {
        assert(s@.subrange(start as int, s@.len() as int) =~= Seq::<char>::empty());
    }
    None
}


/// Whether `needle` occurs in `haystack` starting at `at`.
pub open spec fn occurs_at(haystack: Seq<char>, needle: Seq<char>, at: int) -> bool {
    0 <= at && at + needle.len() <= haystack.len() && haystack.subrange(at, at + needle.len())
        == needle
}

/// Whether `needle` occurs anywhere in `haystack`.
pub open spec fn has_substring(haystack: Seq<char>, needle: Seq<char>) -> bool {
    exists|at: int| occurs_at(haystack, needle, at)
}

/// Whether `needle` occurs in `haystack` at `at`, compared character by character.
fn matches_at(haystack: &[char], needle: &[char], at: usize) -> (r: bool)
    requires
        at + needle@.len() <= haystack@.len(),
    ensures
        r == occurs_at(haystack@, needle@, at as int),
{
    let mut i: usize = 0;
    while i < needle.len()
        invariant
            i <= needle@.len(),
            at + needle@.len() <= haystack.len(),
            forall|j: int| 0 <= j < i ==> haystack@[at + j] == needle@[j],
        decreases needle@.len() - i,
    {
        if haystack[at + i] != needle[i] {
            assert(haystack@.subrange(at as int, at + needle@.len())[i as int] != needle@[i as int]);
            return false;
        }
        i += 1;
    }
    assert(haystack@.subrange(at as int, at + needle@.len()) =~= needle@);
    true
}

/// Whether `needle` occurs in `haystack`, as `str::contains` answers.
pub fn str_contains(haystack: &str, needle: &str) -> (r: bool)
    ensures
        r == has_substring(haystack@, needle@),
{
    let h = str_chars(haystack);
    let n = str_chars(needle);
    if n.len() > h.len() {
        assert forall|at: int| !occurs_at(h@, n@, at) by {}
        return false;
    }
    let last = h.len() - n.len();
    let mut at: usize = 0;
    while at < last
        invariant
            last == h@.len() - n@.len(),
            n@.len() <= h@.len(),
            at <= last,
            h@ == haystack@,
            n@ == needle@,
            forall|k: int| 0 <= k < at ==> !occurs_at(h@, n@, k),
        decreases last + 1 - at,
    {
        if matches_at(h.as_slice(), n.as_slice(), at) {
            return true;
        }
        at += 1;
    }
    if matches_at(h.as_slice(), n.as_slice(), at) {
        return true;
    }
    assert forall|k: int| !occurs_at(h@, n@, k) by {
        if 0 <= k <= at {
        }
    }
    false
}

/// Whether `prefix` starts `s`, as `str::starts_with` answers.
pub fn str_starts_with(s: &str, prefix: &str) -> (r: bool)
    ensures
        r == occurs_at(s@, prefix@, 0),
{
    let h = str_chars(s);
    let n = str_chars(prefix);
    if n.len() > h.len() {
        return false;
    }
    matches_at(h.as_slice(), n.as_slice(), 0)
}

/// Whether two strings hold the same characters.
pub fn str_eq(a: &str, b: &str) -> (r: bool)
    ensures
        r == (a@ == b@),
{
    let av = str_chars(a);
    chars_eq_str(av.as_slice(), b)
}

/// A text has no more lines than characters.
pub proof fn lemma_lines_count(s: Seq<char>)
    ensures
        lines_of(s).len() <= s.len(),
    decreases s.len(),
{
    if s.len() > 0 {
        lemma_next_newline_bounds(s, 0);
        let end = next_newline(s, 0);
        if end < s.len() {
            let rest = s.subrange(end + 1, s.len() as int);
            lemma_lines_count(rest);
            assert(lines_of(s).len() == 1 + lines_of(rest).len());
        } else {
            let empty = Seq::<char>::empty();
            assert(lines_of(empty).len() == 0);
            assert(lines_of(s).len() == 1 + lines_of(empty).len());
        }
    }
}

/// The lines of a text, as `str::lines` gives them.
pub fn all_lines(s: &[char]) -> (v: Vec<Vec<char>>)
    ensures
        v@.len() == lines_of(s@).len(),
        forall|i: int| 0 <= i < v@.len() ==> (#[trigger] v@[i])@ == lines_of(s@)[i],
{
    proof {
        lemma_lines_count(s@);
    }
    let mut v: Vec<Vec<char>> = Vec::new();
    let mut i: usize = 0;
    let n = s.len();
    loop
        invariant
            n == s@.len(),
            i == v@.len(),
            i <= lines_of(s@).len(),
            lines_of(s@).len() <= s@.len(),
            forall|j: int| 0 <= j < i ==> (#[trigger] v@[j])@ == lines_of(s@)[j],
        ensures
            v@.len() == lines_of(s@).len(),
            forall|j: int| 0 <= j < v@.len() ==> (#[trigger] v@[j])@ == lines_of(s@)[j],
        decreases s@.len() + 1 - i,
    {
        match nth_line(s, i) {
            Some(line) => {
                v.push(line);
                i = i + 1;
            },
            None => {
                break;
            },
        }
    }
    v
}

} // verus!
