//! Image attributes, given in an image's title: `image:width:50%`.
use crate::text_util::{str_chars, string_from_chars};
use vstd::prelude::*;

verus! {

/// A percentage, from 0 to 100.
#[derive(Clone, Copy, Debug, PartialEq, Eq, Structural)]
pub struct Percent(pub u8);

/// Why a text is not a percentage.
#[derive(Clone, Copy, Debug, PartialEq, Eq, Structural)]
pub enum PercentParseError {
    /// The number is not an integer from 0 to 100.
    Value,
    /// The text does not end in `%`.
    Unit,
}

/// Why an image attribute was refused.
#[derive(Clone, Debug, PartialEq, Eq)]
pub enum ImageAttributeError {
    /// The width is not a percentage.
    InvalidWidth(PercentParseError),
    /// The attribute has no `:` between its key and its value.
    AttributeMissing,
    /// The key is neither `width` nor `w`.
    UnknownAttribute(String),
}

/// What an image attribute error says, as plain values.
pub enum AttributeFailure {
    InvalidWidth(PercentParseError),
    AttributeMissing,
    UnknownAttribute(Seq<char>),
}

impl ImageAttributeError {
    /// What this error says.
    pub open spec fn failure(&self) -> AttributeFailure {
        match self {
            ImageAttributeError::InvalidWidth(e) => AttributeFailure::InvalidWidth(*e),
            ImageAttributeError::AttributeMissing => AttributeFailure::AttributeMissing,
            ImageAttributeError::UnknownAttribute(k) => AttributeFailure::UnknownAttribute(k@),
        }
    }
}

/// The attributes of an image.
#[derive(Clone, Copy, Debug, PartialEq, Eq, Structural)]
pub struct ImageAttributes {
    /// The width, as a percentage of the available width.
    pub width: Option<Percent>,
}

/// Whether every character is a decimal digit.
pub open spec fn all_digits(s: Seq<char>) -> bool {
    forall|i: int| 0 <= i < s.len() ==> '0' <= #[trigger] s[i] <= '9'
}

/// The number that some decimal digits write.
pub open spec fn digits_value(s: Seq<char>) -> nat
    decreases s.len(),
{
    if s.len() == 0 {
        0
    } else {
        digits_value(s.drop_last()) * 10 + (s.last() as nat - '0' as nat) as nat
    }
}

/// The digits of an unsigned number's text, after an optional `+`.
pub open spec fn unsigned_digits(s: Seq<char>) -> Seq<char> {
    if s.len() > 0 && s[0] == '+' {
        s.drop_first()
    } else {
        s
    }
}

/// What parsing a text as a percentage gives: a number from 0 to 100 followed by `%`.
pub open spec fn percent_result(s: Seq<char>) -> Result<u8, PercentParseError> {
    if s.len() == 0 || s.last() != '%' {
        Err(PercentParseError::Unit)
    } else {
        let d = unsigned_digits(s.drop_last());
        if d.len() == 0 || !all_digits(d) || digits_value(d) > 100 {
            Err(PercentParseError::Value)
        } else {
            Ok(digits_value(d) as u8)
        }
    }
}

/// The digits of a prefix write no larger a number than all the digits.
pub proof fn lemma_digits_value_prefix_bound(d: Seq<char>, k: int)
    requires
        0 <= k <= d.len(),
    ensures
        all_digits(d) ==> digits_value(d.take(k)) <= digits_value(d),
    decreases d.len() - k,
{
    if all_digits(d) {
        if k < d.len() {
            lemma_digits_value_prefix_bound(d, k + 1);
            let p = d.take(k + 1);
            assert(p.drop_last() =~= d.take(k));
            assert('0' <= d[k] <= '9');
        } else {
            assert(d.take(k) =~= d);
        }
    }
}

/// The index of the first occurrence of `c` in `s`, or the length of `s`.
pub open spec fn index_of_char(s: Seq<char>, c: char) -> int
    decreases s.len(),
{
    if s.len() == 0 {
        0
    } else if s[0] == c {
        0
    } else {
        1 + index_of_char(s.drop_first(), c)
    }
}

pub proof fn lemma_index_of_char_bounds(s: Seq<char>, c: char)
    ensures
        0 <= index_of_char(s, c) <= s.len(),
        index_of_char(s, c) < s.len() ==> s[index_of_char(s, c)] == c,
    decreases s.len(),
{
    if s.len() > 0 && s[0] != c {
        lemma_index_of_char_bounds(s.drop_first(), c);
    }
}

/// The first occurrence of `c` is at `i` when `c` is there and nowhere before.
pub proof fn lemma_index_of_char_at(s: Seq<char>, c: char, i: int)
    requires
        0 <= i <= s.len(),
        i < s.len() ==> s[i] == c,
        forall|j: int| 0 <= j < i ==> s[j] != c,
    ensures
        index_of_char(s, c) == i,
    decreases s.len(),
{
    if s.len() > 0 && i > 0 {
        lemma_index_of_char_at(s.drop_first(), c, i - 1);
    }
}

/// The pieces of `s` between the occurrences of `sep`; the empty text has one empty piece.
pub open spec fn split_on(s: Seq<char>, sep: char) -> Seq<Seq<char>>
    decreases s.len(),
{
    let i = index_of_char(s, sep);
    proof {
        lemma_index_of_char_bounds(s, sep);
    }
    if i >= s.len() {
        seq![s]
    } else {
        seq![s.take(i)] + split_on(s.skip(i + 1), sep)
    }
}

/// What an attribute gives: the key before the first `:` must be `width` or `w`, and the
/// value after it a percentage.
pub open spec fn attribute_result(a: Seq<char>) -> Result<u8, AttributeFailure> {
    let i = index_of_char(a, ':');
    if i >= a.len() {
        Err(AttributeFailure::AttributeMissing)
    } else {
        let key = a.take(i);
        if key == seq!['w', 'i', 'd', 't', 'h'] || key == seq!['w'] {
            match percent_result(a.skip(i + 1)) {
                Ok(v) => Ok(v),
                Err(e) => Err(AttributeFailure::InvalidWidth(e)),
            }
        } else {
            Err(AttributeFailure::UnknownAttribute(key))
        }
    }
}

/// Whether a piece of an image's title is an attribute: it starts with the prefix, and, when
/// the prefix is empty, it is not empty.
pub open spec fn attribute_used(piece: Seq<char>, prefix: Seq<char>) -> bool {
    &&& prefix.len() <= piece.len()
    &&& piece.take(prefix.len() as int) == prefix
    &&& !(prefix.len() == 0 && piece.len() == 0)
}

/// What the pieces of a title give, from a width found so far: the first refused attribute
/// fails; otherwise the last width given counts.
pub open spec fn attributes_of(pieces: Seq<Seq<char>>, prefix: Seq<char>, width: Option<u8>) -> Result<
    Option<u8>,
    AttributeFailure,
>
    decreases pieces.len(),
{
    if pieces.len() == 0 {
        Ok(width)
    } else {
        let piece = pieces[0];
        if !attribute_used(piece, prefix) {
            attributes_of(pieces.drop_first(), prefix, width)
        } else {
            match attribute_result(piece.skip(prefix.len() as int)) {
                Err(e) => Err(e),
                Ok(w) => attributes_of(pieces.drop_first(), prefix, Some(w)),
            }
        }
    }
}

/// What the title of an image gives: its pieces between commas, taken as attributes.
pub open spec fn image_attributes_result(input: Seq<char>, prefix: Seq<char>) -> Result<
    Option<u8>,
    AttributeFailure,
> {
    attributes_of(split_on(input, ','), prefix, None)
}

/// The number inside an optional percentage.
pub open spec fn percent_value(p: Option<Percent>) -> Option<u8> {
    match p {
        Some(Percent(v)) => Some(v),
        None => None,
    }
}

/// Parses `s[start..end]` as a percentage.
fn percent_of_chars(s: &Vec<char>, start: usize, end: usize) -> (r: Result<u8, PercentParseError>)
    requires
        start <= end <= s@.len(),
    ensures
        r == percent_result(s@.subrange(start as int, end as int)),
{
    let ghost t = s@.subrange(start as int, end as int);
    if start == end || s[end - 1] != '%' {
        return Err(PercentParseError::Unit);
    }
    let mut from = start;
    if from < end - 1 && s[from] == '+' {
        from = from + 1;
    }
    assert(t.drop_last() =~= s@.subrange(start as int, end - 1));
    assert(t.last() == s@[end - 1]);
    let ghost d = unsigned_digits(t.drop_last());
    assert(d =~= s@.subrange(from as int, end - 1));
    if from == end - 1 {
        return Err(PercentParseError::Value);
    }
    let mut value: u32 = 0;
    let mut i = from;
    while i < end - 1
        invariant
            start <= from <= i <= end - 1,
            end <= s@.len(),
            d == s@.subrange(from as int, end - 1),
            t == s@.subrange(start as int, end as int),
            t.len() > 0 && t.last() == '%',
            d == unsigned_digits(t.drop_last()),
            d.len() > 0,
            all_digits(s@.subrange(from as int, i as int)),
            value as nat == if digits_value(s@.subrange(from as int, i as int)) < 256 {
                digits_value(s@.subrange(from as int, i as int))
            } else {
                256
            },
        decreases end - 1 - i,
    {
        let c = s[i];
        if c < '0' || c > '9' {
            proof {
                assert(d[i - from] == c);
            }
            return Err(PercentParseError::Value);
        }
        let digit = (c as u32) - ('0' as u32);
        let next = value * 10 + digit;
        value = if next > 256 {
            256
        } else {
            next
        };
        proof {
            let p = s@.subrange(from as int, i + 1);
            assert(p.drop_last() =~= s@.subrange(from as int, i as int));
            assert(p.last() == c);
        }
        i = i + 1;
    }
    if value > 100 {
        Err(PercentParseError::Value)
    } else {
        Ok(value as u8)
    }
}

impl Percent {
    /// Parses a percentage: a number from 0 to 100 followed by `%`.
    pub fn parse(input: &str) -> (r: Result<Percent, PercentParseError>)
        ensures
            match r {
                Ok(p) => percent_result(input@) == Ok::<u8, PercentParseError>(p.0),
                Err(e) => percent_result(input@) == Err::<u8, PercentParseError>(e),
            },
    {
        let s = str_chars(input);
        proof {
            assert(s@.subrange(0, s@.len() as int) =~= input@);
        }
        match percent_of_chars(&s, 0, s.len()) {
            Ok(v) => Ok(Percent(v)),
            Err(e) => Err(e),
        }
    }
}

/// The first index from `start` at which `s` holds `c`, or `end`.
fn find_char(s: &Vec<char>, start: usize, end: usize, c: char) -> (i: usize)
    requires
        start <= end <= s@.len(),
    ensures
        start <= i <= end,
        i - start == index_of_char(s@.subrange(start as int, end as int), c),
{
    let mut i = start;
    while i < end && s[i] != c
        invariant
            start <= i <= end,
            end <= s@.len(),
            forall|j: int| start <= j < i ==> s@[j] != c,
        decreases end - i,
    {
        i = i + 1;
    }
    proof {
        let t = s@.subrange(start as int, end as int);
        assert forall|j: int| 0 <= j < i - start implies t[j] != c by {
            assert(t[j] == s@[start + j]);
        }
        lemma_index_of_char_at(t, c, i - start);
    }
    i
}

/// The characters `s[start..end]`.
fn chars_between(s: &Vec<char>, start: usize, end: usize) -> (v: Vec<char>)
    requires
        start <= end <= s@.len(),
    ensures
        v@ == s@.subrange(start as int, end as int),
{
    let mut v: Vec<char> = Vec::new();
    let mut i = start;
    while i < end
        invariant
            start <= i <= end,
            end <= s@.len(),
            v@ == s@.subrange(start as int, i as int),
        decreases end - i,
    {
        v.push(s[i]);
        proof {
            assert(v@ =~= s@.subrange(start as int, i + 1));
        }
        i = i + 1;
    }
    v
}

/// Parses the attribute `s[start..end]`.
fn parse_attribute(s: &Vec<char>, start: usize, end: usize) -> (r: Result<u8, ImageAttributeError>)
    requires
        start <= end <= s@.len(),
    ensures
        match r {
            Ok(v) => attribute_result(s@.subrange(start as int, end as int)) == Ok::<
                u8,
                AttributeFailure,
            >(v),
            Err(e) => attribute_result(s@.subrange(start as int, end as int)) == Err::<
                u8,
                AttributeFailure,
            >(e.failure()),
        },
{
    let ghost a = s@.subrange(start as int, end as int);
    let colon = find_char(s, start, end, ':');
    if colon == end {
        return Err(ImageAttributeError::AttributeMissing);
    }
    let ghost key = a.take(colon - start);
    assert(key =~= s@.subrange(start as int, colon as int));
    assert(a.skip(colon - start + 1) =~= s@.subrange(colon + 1, end as int));
    let n = colon - start;
    let is_width = n == 5 && s[start] == 'w' && s[start + 1] == 'i' && s[start + 2] == 'd'
        && s[start + 3] == 't' && s[start + 4] == 'h';
    let is_w = n == 1 && s[start] == 'w';
    proof {
        if key == seq!['w', 'i', 'd', 't', 'h'] {
            assert(key[0] == 'w' && key[1] == 'i' && key[2] == 'd' && key[3] == 't' && key[4] == 'h');
        }
        if key == seq!['w'] {
            assert(key[0] == 'w');
        }
        if is_width {
            assert(key =~= seq!['w', 'i', 'd', 't', 'h']);
        }
        if is_w {
            assert(key =~= seq!['w']);
        }
    }
    if is_width || is_w {
        match percent_of_chars(s, colon + 1, end) {
            Ok(v) => Ok(v),
            Err(e) => Err(ImageAttributeError::InvalidWidth(e)),
        }
    } else {
        let key_chars = chars_between(s, start, colon);
        Err(ImageAttributeError::UnknownAttribute(string_from_chars(key_chars.as_slice())))
    }
}

/// Whether `s[start..end]` starts with `prefix`.
fn starts_with_chars(s: &Vec<char>, start: usize, end: usize, prefix: &Vec<char>) -> (r: bool)
    requires
        start <= end <= s@.len(),
    ensures
        r == (prefix@.len() <= end - start && s@.subrange(start as int, end as int).take(
            prefix@.len() as int,
        ) == prefix@),
{
    if prefix.len() > end - start {
        return false;
    }
    let mut k: usize = 0;
    while k < prefix.len()
        invariant
            k <= prefix@.len(),
            prefix@.len() <= end - start,
            end <= s@.len(),
            forall|j: int| 0 <= j < k ==> s@[start + j] == prefix@[j],
        decreases prefix@.len() - k,
    {
        if s[start + k] != prefix[k] {
            proof {
                let t = s@.subrange(start as int, end as int).take(prefix@.len() as int);
                assert(t[k as int] != prefix@[k as int]);
            }
            return false;
        }
        k = k + 1;
    }
    proof {
        assert(s@.subrange(start as int, end as int).take(prefix@.len() as int) =~= prefix@);
    }
    true
}

/// Parses the attributes in an image's title: its pieces between commas that start with the
/// attribute prefix, each `key:value`, of which `width` (or `w`) takes a percentage.
pub fn parse_image_attributes(input: &str, attribute_prefix: &str) -> (r: Result<
    ImageAttributes,
    ImageAttributeError,
>)
    ensures
        match r {
            Ok(a) => image_attributes_result(input@, attribute_prefix@) == Ok::<
                Option<u8>,
                AttributeFailure,
            >(percent_value(a.width)),
            Err(e) => image_attributes_result(input@, attribute_prefix@) == Err::<
                Option<u8>,
                AttributeFailure,
            >(e.failure()),
        },
{
    let s = str_chars(input);
    let prefix = str_chars(attribute_prefix);
    let mut width: Option<Percent> = None;
    let mut start: usize = 0;
    proof {
        assert(s@.skip(0) =~= s@);
    }
    loop
        invariant
            start <= s@.len(),
            s@ == input@,
            prefix@ == attribute_prefix@,
            image_attributes_result(input@, attribute_prefix@) == attributes_of(
                split_on(s@.skip(start as int), ','),
                prefix@,
                percent_value(width),
            ),
        decreases s@.len() - start,
    {
        let end = find_char(&s, start, s.len(), ',');
        let ghost rest = s@.skip(start as int);
        let ghost piece = s@.subrange(start as int, end as int);
        proof {
            assert(rest =~= s@.subrange(start as int, s@.len() as int));
            lemma_index_of_char_bounds(rest, ',');
            assert(rest.take(end - start) =~= piece);
            if end < s.len() {
                assert(rest.skip(end - start + 1) =~= s@.skip(end + 1));
                let tail = split_on(s@.skip(end + 1), ',');
                assert((seq![piece] + tail).drop_first() =~= tail);
            } else {
                assert(rest =~= piece);
                assert(seq![piece].drop_first() =~= Seq::<Seq<char>>::empty());
            }
        }
        let used = starts_with_chars(&s, start, end, &prefix) && !(prefix.len() == 0 && start
            == end);
        if used {
            proof {
                assert(piece.skip(prefix@.len() as int) =~= s@.subrange(
                    start + prefix@.len(),
                    end as int,
                ));
            }
            match parse_attribute(&s, start + prefix.len(), end) {
                Ok(v) => {
                    width = Some(Percent(v));
                },
                Err(e) => {
                    return Err(e);
                },
            }
        }
        if end == s.len() {
            proof {
                let none: Seq<Seq<char>> = Seq::empty();
                assert(attributes_of(none, prefix@, percent_value(width)) == Ok::<
                    Option<u8>,
                    AttributeFailure,
                >(percent_value(width)));
            }
            return Ok(ImageAttributes { width });
        }
        start = end + 1;
    }
}

} // verus!
