//! Reading what a terminal answers when asked about its capabilities.
use crate::terminal::TerminalCapabilities;
use crate::text_util::{decimal, occurs_at, str_chars, string_from_chars, usize_to_string};
use vstd::prelude::*;

verus! {

/// The kind of answer being read.
#[derive(Clone, Copy, Debug, PartialEq, Eq, Structural)]
pub enum ResponseType {
    Unknown,
    Kitty,
    Capabilities,
    StatusReport,
}

/// A complete answer.
#[derive(Clone, Copy, Debug, PartialEq, Eq, Structural)]
pub enum Response {
    /// The kitty graphics protocol works for the image with this id.
    KittySupported { image_id: u32 },
    /// The device attributes, which say whether sixel is supported.
    Capabilities { sixel: bool },
    /// A status report, sent when nothing else came.
    StatusReport,
}

/// The ids of the two images that the kitty query sends.
#[derive(Clone, Copy, Debug, PartialEq, Eq, Structural)]
pub struct KittyImageIds {
    pub local: u32,
    pub remote: u32,
}

/// What the parser holds: the characters of the current answer so far and its kind.
pub struct QueryState {
    pub data: Seq<char>,
    pub current: ResponseType,
}

/// What every reachable state keeps: an answer's kind is known only once its opening
/// characters came, and they stay at the front.
pub open spec fn state_wf(state: QueryState) -> bool {
    match state.current {
        ResponseType::Unknown => true,
        ResponseType::Kitty => state.data.len() >= 4 && state.data.take(4) == seq!['_', 'G', 'i', '='],
        ResponseType::Capabilities => state.data.len() >= 2 && state.data.take(2) == seq!['[', '?'],
        ResponseType::StatusReport => state.data.len() >= 2 && state.data.take(2) == seq!['[', '0'],
    }
}

/// The state before any answer.
pub open spec fn initial_state() -> QueryState {
    QueryState { data: Seq::empty(), current: ResponseType::Unknown }
}

/// The value of a sequence of decimal digits.
pub open spec fn digits_value(s: Seq<char>) -> nat
    decreases s.len(),
{
    if s.len() == 0 {
        0
    } else {
        digits_value(s.drop_last()) * 10 + (s.last() as nat - '0' as nat) as nat
    }
}

/// Whether every character is a decimal digit.
pub open spec fn all_digits(s: Seq<char>) -> bool {
    forall|i: int| 0 <= i < s.len() ==> '0' <= #[trigger] s[i] <= '9'
}

/// What `str::parse::<u32>` gives: an optional `+`, then one or more digits whose value fits.
pub open spec fn parse_u32(s: Seq<char>) -> Option<u32> {
    let digits = if s.len() > 0 && s[0] == '+' {
        s.drop_first()
    } else {
        s
    };
    if digits.len() > 0 && all_digits(digits) && digits_value(digits) <= u32::MAX {
        Some(digits_value(digits) as u32)
    } else {
        None
    }
}

/// The index of the first `;` at or after `from`, or the length when there's none.
pub open spec fn next_semicolon(s: Seq<char>, from: int) -> int
    decreases s.len() - from,
{
    if from >= s.len() {
        s.len() as int
    } else if s[from] == ';' {
        from
    } else {
        next_semicolon(s, from + 1)
    }
}

/// The answer a finished kitty reply gives: it must end in `;OK` and an escape, and the id
/// between `_Gi=` and the first `;` must be a number.
pub open spec fn kitty_response(data: Seq<char>) -> Option<Response> {
    if !(data.len() >= 4 && occurs_at(data, seq![';', 'O', 'K', '\x1b'], data.len() - 4)) {
        None
    } else {
        let rest = data.subrange(4, data.len() as int);
        let end = next_semicolon(rest, 0);
        match parse_u32(rest.subrange(0, end)) {
            Some(id) => Some(Response::KittySupported { image_id: id }),
            None => None,
        }
    }
}

/// Whether a `;`-separated list holds the field `4`.
pub open spec fn has_sixel_field(fields: Seq<char>) -> bool {
    exists|at: int|
        occurs_at(fields, seq!['4'], at) && (at == 0 || fields[at - 1] == ';') && (at + 1
            == fields.len() || fields[at + 1] == ';')
}

/// One step of the parser: the state after reading `c`, and the answer it completes, if any.
pub open spec fn step(state: QueryState, c: char) -> (QueryState, Option<Response>) {
    match state.current {
        ResponseType::Unknown => if c == '\x1b' {
            (initial_state(), None)
        } else {
            let current = if state.data == seq!['['] && c == '?' {
                ResponseType::Capabilities
            } else if state.data == seq!['['] && c == '0' {
                ResponseType::StatusReport
            } else if state.data == seq!['_', 'G', 'i'] && c == '=' {
                ResponseType::Kitty
            } else {
                ResponseType::Unknown
            };
            (QueryState { data: state.data.push(c), current }, None)
        },
        ResponseType::Kitty => if c == '\\' {
            (initial_state(), kitty_response(state.data))
        } else {
            (QueryState { data: state.data.push(c), current: state.current }, None)
        },
        ResponseType::Capabilities => if c == 'c' {
            (
                initial_state(),
                Some(
                    Response::Capabilities {
                        sixel: has_sixel_field(state.data.subrange(2, state.data.len() as int)),
                    },
                ),
            )
        } else {
            (QueryState { data: state.data.push(c), current: state.current }, None)
        },
        ResponseType::StatusReport => if c == 'n' {
            (initial_state(), Some(Response::StatusReport))
        } else {
            (QueryState { data: state.data.push(c), current: state.current }, None)
        },
    }
}

/// The capabilities after an answer.
pub open spec fn record(
    capabilities: TerminalCapabilities,
    response: Response,
    ids: KittyImageIds,
) -> TerminalCapabilities {
    match response {
        Response::KittySupported { image_id } => if image_id == ids.local {
            TerminalCapabilities { kitty_local: true, ..capabilities }
        } else if image_id == ids.remote {
            TerminalCapabilities { kitty_remote: true, ..capabilities }
        } else {
            capabilities
        },
        Response::Capabilities { sixel } => TerminalCapabilities { sixel, ..capabilities },
        Response::StatusReport => capabilities,
    }
}

/// Whether an answer ends the reading: the device attributes or a status report.
pub open spec fn is_final(response: Response) -> bool {
    !(response is KittySupported)
}

/// What reading `input` from `state` gives: the capabilities, and whether a final answer came.
pub open spec fn run(
    state: QueryState,
    input: Seq<u8>,
    capabilities: TerminalCapabilities,
    ids: KittyImageIds,
) -> (TerminalCapabilities, bool)
    decreases input.len(),
{
    if input.len() == 0 {
        (capabilities, false)
    } else {
        let (next, output) = step(state, input[0] as char);
        match output {
            None => run(next, input.drop_first(), capabilities, ids),
            Some(response) => if is_final(response) {
                (record(capabilities, response, ids), true)
            } else {
                run(next, input.drop_first(), record(capabilities, response, ids), ids)
            },
        }
    }
}

/// The parser of a terminal's answers.
pub struct QueryParseState {
    data: Vec<char>,
    current: ResponseType,
}

impl QueryParseState {
    /// What this parser holds.
    pub closed spec fn view_state(&self) -> QueryState {
        QueryState { data: self.data@, current: self.current }
    }

    /// A parser before any answer.
    pub fn new() -> (s: Self)
        ensures
            s.view_state() == initial_state(),
    {
        QueryParseState { data: Vec::new(), current: ResponseType::Unknown }
    }

    /// Reads one character, and returns the answer it completes, if any.
    pub fn update(&mut self, next: char) -> (r: Option<Response>)
        requires
            state_wf(old(self).view_state()),
        ensures
            (final(self).view_state(), r) == step(old(self).view_state(), next),
            state_wf(final(self).view_state()),
    {
        let ghost before = self.data@;
        match self.current {
            ResponseType::Unknown => {
                if next == '\x1b' {
                    *self = QueryParseState::new();
                    return None;
                }
                let open_bracket = self.data.len() == 1 && self.data[0] == '[';
                let kitty_prefix = self.data.len() == 3 && self.data[0] == '_' && self.data[1] == 'G'
                    && self.data[2] == 'i';
                proof {
                    if self.data@.len() == 1 && self.data@[0] == '[' {
                        assert(self.data@ =~= seq!['[']);
                    }
                    if self.data@ == seq!['['] {
                        assert(self.data@[0] == '[');
                    }
                    if kitty_prefix {
                        assert(self.data@ =~= seq!['_', 'G', 'i']);
                    }
                    if self.data@ == seq!['_', 'G', 'i'] {
                        assert(self.data@[0] == '_' && self.data@[1] == 'G' && self.data@[2] == 'i');
                    }
                }
                if open_bracket && next == '?' {
                    self.current = ResponseType::Capabilities;
                } else if open_bracket && next == '0' {
                    self.current = ResponseType::StatusReport;
                } else if next == '=' && kitty_prefix {
                    self.current = ResponseType::Kitty;
                }
                self.data.push(next);
                proof {
                    if before == seq!['['] && next == '?' {
                        assert(self.data@ =~= seq!['[', '?']);
                        assert(self.data@.take(2) =~= self.data@);
                    }
                    if before == seq!['['] && next == '0' {
                        assert(self.data@ =~= seq!['[', '0']);
                        assert(self.data@.take(2) =~= self.data@);
                    }
                    if before == seq!['_', 'G', 'i'] && next == '=' {
                        assert(self.data@ =~= seq!['_', 'G', 'i', '=']);
                        assert(self.data@.take(4) =~= self.data@);
                    }
                }
                None
            },
            ResponseType::Kitty => {
                if next == '\\' {
                    let response = self.build_kitty_response();
                    *self = QueryParseState::new();
                    response
                } else {
                    self.data.push(next);
                    proof {
                        if before.len() >= 2 {
                            assert(self.data@.take(2) =~= before.take(2));
                        }
                        if before.len() >= 4 {
                            assert(self.data@.take(4) =~= before.take(4));
                        }
                    }
                    None
                }
            },
            ResponseType::Capabilities => {
                if next == 'c' {
                    let sixel = has_sixel(self.data.as_slice(), 2);
                    *self = QueryParseState::new();
                    Some(Response::Capabilities { sixel })
                } else {
                    self.data.push(next);
                    proof {
                        if before.len() >= 2 {
                            assert(self.data@.take(2) =~= before.take(2));
                        }
                        if before.len() >= 4 {
                            assert(self.data@.take(4) =~= before.take(4));
                        }
                    }
                    None
                }
            },
            ResponseType::StatusReport => {
                if next == 'n' {
                    *self = QueryParseState::new();
                    Some(Response::StatusReport)
                } else {
                    self.data.push(next);
                    proof {
                        if before.len() >= 2 {
                            assert(self.data@.take(2) =~= before.take(2));
                        }
                        if before.len() >= 4 {
                            assert(self.data@.take(4) =~= before.take(4));
                        }
                    }
                    None
                }
            },
        }
    }

    /// The answer that a finished kitty reply gives.
    fn build_kitty_response(&self) -> (r: Option<Response>)
        requires
            self.data@.len() >= 4,
        ensures
            r == kitty_response(self.data@),
    {
        let data = self.data.as_slice();
        let n = data.len();
        if !(n >= 4 && data[n - 4] == ';' && data[n - 3] == 'O' && data[n - 2] == 'K' && data[n - 1]
            == '\x1b') {
            proof {
                if n >= 4 && occurs_at(data@, seq![';', 'O', 'K', '\x1b'], n - 4) {
                    let tail = data@.subrange(n - 4, n as int);
                    assert(tail[0] == data@[n - 4]);
                    assert(tail[1] == data@[n - 3]);
                    assert(tail[2] == data@[n - 2]);
                    assert(tail[3] == data@[n - 1]);
                }
            }
            return None;
        }
        assert(data@.subrange(n - 4, n as int) =~= seq![';', 'O', 'K', '\x1b']);
        let ghost rest = data@.subrange(4, n as int);
        let mut end: usize = 4;
        while end < n && data[end] != ';'
            invariant
                4 <= end <= n,
                n == data@.len(),
                rest == data@.subrange(4, n as int),
                next_semicolon(rest, (end - 4) as int) == next_semicolon(rest, 0),
            decreases n - end,
        {
            end += 1;
        }
        assert(next_semicolon(rest, (end - 4) as int) == (end - 4));
        assert(data@.subrange(4, end as int) =~= rest.subrange(0, (end - 4) as int));
        match parse_u32_chars(data, 4, end) {
            Some(id) => Some(Response::KittySupported { image_id: id }),
            None => None,
        }
    }
}


/// Whether the characters from `from` on, as a `;`-separated list, hold the field `4`.
fn has_sixel(s: &[char], from: usize) -> (r: bool)
    requires
        from <= s@.len(),
    ensures
        r == has_sixel_field(s@.subrange(from as int, s@.len() as int)),
{
    let ghost fields = s@.subrange(from as int, s@.len() as int);
    let n = s.len();
    let mut at: usize = from;
    while at < n
        invariant
            from <= at <= n,
            n == s@.len(),
            fields == s@.subrange(from as int, n as int),
            forall|k: int|
                0 <= k < at - from ==> !(occurs_at(fields, seq!['4'], k) && (k == 0 || fields[k - 1]
                    == ';') && (k + 1 == fields.len() || fields[k + 1] == ';')),
        decreases n - at,
    {
        let starts = at == from || s[at - 1] == ';';
        let ends = at + 1 == n || s[at + 1] == ';';
        let ghost k = at - from;
        proof {
            assert(fields.subrange(k, k + 1) =~= seq![s@[at as int]]);
            if k > 0 {
                assert(fields[k - 1] == s@[at - 1]);
            }
            if k + 1 < fields.len() {
                assert(fields[k + 1] == s@[at + 1]);
            }
        }
        if s[at] == '4' && starts && ends {
            assert(occurs_at(fields, seq!['4'], k as int));
            return true;
        }
        proof {
            if occurs_at(fields, seq!['4'], k as int) {
                assert(fields.subrange(k as int, k + 1)[0] == seq!['4'][0]);
            }
        }
        at += 1;
    }
    assert forall|k: int|
        !(occurs_at(fields, seq!['4'], k) && (k == 0 || fields[k - 1] == ';') && (k + 1 == fields.len()
            || fields[k + 1] == ';')) by {
        if 0 <= k < at - from {
        }
    }
    false
}

/// A prefix of a number's digits is worth no more than all of them.
proof fn lemma_digits_value_prefix(s: Seq<char>, k: int)
    requires
        all_digits(s),
        0 <= k <= s.len(),
    ensures
        digits_value(s.take(k)) <= digits_value(s),
    decreases s.len(),
{
    if k < s.len() {
        let shorter = s.drop_last();
        assert(all_digits(shorter)) by {
            assert forall|i: int| 0 <= i < shorter.len() implies '0' <= #[trigger] shorter[i] <= '9' by {
                assert(shorter[i] == s[i]);
            }
        }
        lemma_digits_value_prefix(shorter, k);
        assert(shorter.take(k) =~= s.take(k));
    } else {
        assert(s.take(k) =~= s);
    }
}

/// The number that the characters in `start..end` spell, as `str::parse::<u32>` reads it.
pub(crate) fn parse_u32_chars(s: &[char], start: usize, end: usize) -> (r: Option<u32>)
    requires
        start <= end <= s@.len(),
    ensures
        r == parse_u32(s@.subrange(start as int, end as int)),
{
    let ghost text = s@.subrange(start as int, end as int);
    let mut i: usize = start;
    if start < end {
        assert(text[0] == s@[start as int]);
    }
    if i < end && s[i] == '+' {
        i += 1;
    }
    let ghost digits = s@.subrange(i as int, end as int);
    proof {
        if text.len() > 0 && text[0] == '+' {
            assert(digits =~= text.drop_first());
        } else {
            assert(digits =~= text);
        }
    }
    if i == end {
        assert(digits.len() == 0);
        assert(parse_u32(text) is None);
        return None;
    }
    let first = i;
    let mut j: usize = i;
    while j < end
        invariant
            first <= j <= end <= s@.len(),
            digits == s@.subrange(first as int, end as int),
            text == s@.subrange(start as int, end as int),
            digits == (if text.len() > 0 && text[0] == '+' {
                text.drop_first()
            } else {
                text
            }),
            digits.len() > 0,
            forall|k: int| 0 <= k < j - first ==> '0' <= #[trigger] digits[k] <= '9',
        decreases end - j,
    {
        if !('0' <= s[j] && s[j] <= '9') {
            assert(digits[j - first] == s@[j as int]);
            return None;
        }
        assert(digits[j - first] == s@[j as int]);
        j += 1;
    }
    assert(all_digits(digits));
    let mut value: u64 = 0;
    let mut j: usize = first;
    while j < end
        invariant
            first <= j <= end <= s@.len(),
            digits == s@.subrange(first as int, end as int),
            text == s@.subrange(start as int, end as int),
            digits == (if text.len() > 0 && text[0] == '+' {
                text.drop_first()
            } else {
                text
            }),
            digits.len() > 0,
            all_digits(digits),
            value == digits_value(digits.take(j - first)),
            value <= u32::MAX,
        decreases end - j,
    {
        let c = s[j];
        assert(digits[j - first] == s@[j as int]);
        assert('0' <= c <= '9');
        let d = (c as u32 - '0' as u32) as u64;
        let ghost taken = digits.take(j - first + 1);
        proof {
            assert(taken.drop_last() =~= digits.take(j - first));
            assert(taken.last() == s@[j as int]);
        }
        value = value * 10 + d;
        j += 1;
        if value > 4294967295 {
            proof {
                lemma_digits_value_prefix(digits, j - first);
            }
            return None;
        }
    }
    assert(digits.take(j - first) =~= digits);
    Some(value as u32)
}

/// Reads what the terminal sent so far: the capabilities it shows, and whether a final answer
/// (the device attributes or a status report) came, after which nothing more is read.
pub fn parse_response(input: &[u8], ids: KittyImageIds) -> (r: (TerminalCapabilities, bool))
    ensures
        r == run(initial_state(), input@, TerminalCapabilities::none(), ids),
{
    let mut state = QueryParseState::new();
    let mut capabilities = TerminalCapabilities::default();
    let mut i: usize = 0;
    assert(input@.subrange(0, input@.len() as int) =~= input@);
    while i < input.len()
        invariant
            i <= input@.len(),
            state_wf(state.view_state()),
            run(initial_state(), input@, TerminalCapabilities::none(), ids) == run(
                state.view_state(),
                input@.subrange(i as int, input@.len() as int),
                capabilities,
                ids,
            ),
        decreases input@.len() - i,
    {
        let ghost rest = input@.subrange(i as int, input@.len() as int);
        assert(rest.drop_first() =~= input@.subrange(i + 1, input@.len() as int));
        assert(rest[0] == input@[i as int]);
        let next = input[i] as char;
        match state.update(next) {
            None => {},
            Some(response) => {
                match response {
                    Response::KittySupported { image_id } => {
                        if image_id == ids.local {
                            capabilities.kitty_local = true;
                        } else if image_id == ids.remote {
                            capabilities.kitty_remote = true;
                        }
                    },
                    Response::Capabilities { sixel } => {
                        capabilities.sixel = sixel;
                        return (capabilities, true);
                    },
                    Response::StatusReport => {
                        return (capabilities, true);
                    },
                }
            },
        }
        i += 1;
    }
    (capabilities, false)
}
/// A text with every escape character doubled.
pub open spec fn doubled_escapes(s: Seq<char>) -> Seq<char>
    decreases s.len(),
{
    if s.len() == 0 {
        Seq::empty()
    } else {
        let rest = doubled_escapes(s.drop_last());
        if s.last() == '\x1b' {
            rest + seq!['\x1b', '\x1b']
        } else {
            rest.push(s.last())
        }
    }
}

/// An escape sequence as it is sent: inside tmux, wrapped in a tmux passthrough with its
/// escapes doubled; otherwise as it is.
pub open spec fn escaped_sequence(sequence: Seq<char>, tmux: bool) -> Seq<char> {
    if tmux {
        "\x1bPtmux;"@ + doubled_escapes(sequence) + "\x1b\\"@
    } else {
        sequence
    }
}

/// The kitty graphics query for a 1x1 RGBA image with the given id, sent through a medium.
pub open spec fn kitty_query_text(image_id: u32, medium: char, payload: Seq<char>) -> Seq<char> {
    "\x1b_Gi="@ + decimal(image_id as nat) + ",s=1,v=1,a=q,t="@ + seq![medium] + ",f=32;"@ + payload
        + "\x1b\\"@
}

/// Appends a text's characters.
fn push_chars(v: &mut Vec<char>, s: &str)
    ensures
        final(v)@ == old(v)@ + s@,
{
    let chars = str_chars(s);
    let mut i: usize = 0;
    while i < chars.len()
        invariant
            i <= chars@.len(),
            chars@ == s@,
            v@ == old(v)@ + chars@.take(i as int),
        decreases chars@.len() - i,
    {
        v.push(chars[i]);
        i += 1;
        assert(v@ =~= old(v)@ + chars@.take(i as int));
    }
    assert(chars@.take(i as int) =~= chars@);
}

/// An escape sequence as it is sent, as `escaped_sequence` says.
pub fn escape(sequence: &str, tmux: bool) -> (s: String)
    ensures
        s@ == escaped_sequence(sequence@, tmux),
{
    if !tmux {
        let chars = str_chars(sequence);
        return string_from_chars(chars.as_slice());
    }
    let chars = str_chars(sequence);
    let mut out: Vec<char> = Vec::new();
    push_chars(&mut out, "\x1bPtmux;");
    let ghost head = out@;
    let mut i: usize = 0;
    while i < chars.len()
        invariant
            i <= chars@.len(),
            chars@ == sequence@,
            head == "\x1bPtmux;"@,
            out@ == head + doubled_escapes(chars@.take(i as int)),
        decreases chars@.len() - i,
    {
        let c = chars[i];
        if c == '\x1b' {
            out.push('\x1b');
            out.push('\x1b');
        } else {
            out.push(c);
        }
        proof {
            assert(chars@.take(i + 1).drop_last() =~= chars@.take(i as int));
        }
        i += 1;
        assert(out@ =~= head + doubled_escapes(chars@.take(i as int)));
    }
    assert(chars@.take(i as int) =~= chars@);
    push_chars(&mut out, "\x1b\\");
    assert(out@ =~= escaped_sequence(sequence@, tmux));
    string_from_chars(out.as_slice())
}

/// The kitty graphics query for an image id, as it is sent.
pub fn kitty_query(image_id: u32, medium: char, payload: &str, tmux: bool) -> (s: String)
    ensures
        s@ == escaped_sequence(kitty_query_text(image_id, medium, payload@), tmux),
{
    let mut out: Vec<char> = Vec::new();
    push_chars(&mut out, "\x1b_Gi=");
    let id = usize_to_string(image_id as usize);
    push_chars(&mut out, id.as_str());
    push_chars(&mut out, ",s=1,v=1,a=q,t=");
    out.push(medium);
    push_chars(&mut out, ",f=32;");
    push_chars(&mut out, payload);
    push_chars(&mut out, "\x1b\\");
    assert(out@ =~= kitty_query_text(image_id, medium, payload@));
    let query = string_from_chars(out.as_slice());
    escape(query.as_str(), tmux)
}

} // verus!
