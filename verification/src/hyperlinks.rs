//! Whether the terminal shows OSC 8 hyperlinks, judged from its environment variables.
use crate::builder::{trim_chars, trimmed};
use crate::images::{all_digits, digits_value, unsigned_digits};
use crate::text_util::{chars_eq_str, occurs_at, str_chars, str_eq, str_starts_with};
use vstd::prelude::*;

verus! {

/// The environment variables that tell whether hyperlinks are shown.
#[derive(Clone, Debug, Default)]
pub struct HyperlinkEnv {
    pub force_hyperlink: Option<String>,
    pub tmux: Option<String>,
    pub term: Option<String>,
    pub term_program: Option<String>,
    pub lc_terminal: Option<String>,
    pub vte_version: Option<String>,
    pub konsole_version: Option<String>,
    pub wt_session: Option<String>,
    pub domterm: Option<String>,
    pub terminal_emulator: Option<String>,
}

/// What an optional variable holds.
pub open spec fn var_view(v: Option<String>) -> Option<Seq<char>> {
    match v {
        Some(s) => Some(s@),
        None => None,
    }
}

/// A character in lower case, for the letters of ASCII.
pub open spec fn ascii_lower(c: char) -> char {
    if 'A' <= c && c <= 'Z' {
        ((c as u8) + 32) as char
    } else {
        c
    }
}

/// A text in lower case, for the letters of ASCII.
pub open spec fn lowered(s: Seq<char>) -> Seq<char> {
    Seq::new(s.len(), |i: int| ascii_lower(s[i]))
}

/// What `FORCE_HYPERLINK` asks for: nothing when unset; off when, trimmed and in lower case,
/// it is empty, `0`, `false`, `no` or `off`; on otherwise.
pub open spec fn forced(value: Option<Seq<char>>) -> Option<bool> {
    match value {
        None => None,
        Some(s) => {
            let t = lowered(trimmed(s));
            Some(!(t == ""@ || t == "0"@ || t == "false"@ || t == "no"@ || t == "off"@))
        },
    }
}

/// Whether `s` starts with `prefix`.
pub open spec fn starts_with(s: Seq<char>, prefix: Seq<char>) -> bool {
    occurs_at(s, prefix, 0)
}

/// Whether `VTE_VERSION` is a number from 5000, the version 0.50 of VTE.
pub open spec fn vte_shows_hyperlinks(v: Option<Seq<char>>) -> bool {
    match v {
        Some(s) => match u32_value(s) {
            Some(n) => n >= 5000,
            None => false,
        },
        None => false,
    }
}

/// Whether `TERM` names a terminal multiplexer that swallows hyperlinks.
pub open spec fn multiplexer_term(term: Seq<char>) -> bool {
    ||| term == "screen"@
    ||| starts_with(term, "screen-"@)
    ||| starts_with(term, "screen."@)
    ||| term == "tmux"@
    ||| starts_with(term, "tmux-"@)
}

/// Whether `TERM` names a terminal known to show hyperlinks.
pub open spec fn hyperlink_term(term: Seq<char>) -> bool {
    ||| term == "xterm-kitty"@
    ||| term == "alacritty"@
    ||| term == "foot"@
    ||| term == "foot-extra"@
    ||| term == "xterm-ghostty"@
    ||| term == "contour"@
    ||| term == "rio"@
}

/// Whether `TERM_PROGRAM` (or `LC_TERMINAL`) names a terminal known to show hyperlinks.
pub open spec fn hyperlink_program(program: Seq<char>) -> bool {
    ||| program == "iTerm.app"@
    ||| program == "iTerm2"@
    ||| program == "WezTerm"@
    ||| program == "ghostty"@
    ||| program == "vscode"@
    ||| program == "Hyper"@
    ||| program == "mintty"@
    ||| program == "terminology"@
    ||| program == "rio"@
    ||| program == "Tabby"@
}

/// The number a text writes, as `str::parse::<u32>` reads it: an optional `+` and decimal
/// digits, no larger than `u32::MAX`.
pub open spec fn u32_value(s: Seq<char>) -> Option<nat> {
    let d = unsigned_digits(s);
    if d.len() > 0 && all_digits(d) && digits_value(d) <= u32::MAX {
        Some(digits_value(d))
    } else {
        None
    }
}

/// A variable's text, or the empty text when it is unset.
pub open spec fn or_empty(v: Option<Seq<char>>) -> Seq<char> {
    match v {
        Some(s) => s,
        None => Seq::empty(),
    }
}

/// Whether the terminal shows hyperlinks: as `FORCE_HYPERLINK` asks; never inside tmux or
/// screen; always in terminals known for it, by `TERM`, then by `TERM_PROGRAM` or else
/// `LC_TERMINAL`; in VTE terminals from version 0.50; and in Konsole, Windows Terminal, DomTerm
/// and the terminal of JetBrains IDEs.
pub open spec fn hyperlinks_shown(env: HyperlinkEnv) -> bool {
    let term = or_empty(var_view(env.term));
    let program = match var_view(env.term_program) {
        Some(p) => p,
        None => or_empty(var_view(env.lc_terminal)),
    };
    if forced(var_view(env.force_hyperlink)) is Some {
        forced(var_view(env.force_hyperlink))->0
    } else if env.tmux is Some || var_view(env.term_program) == Some("tmux"@) {
        false
    } else if multiplexer_term(term) {
        false
    } else if hyperlink_term(term) || hyperlink_program(program) {
        true
    } else if vte_shows_hyperlinks(var_view(env.vte_version)) {
        true
    } else {
        ||| env.konsole_version is Some
        ||| env.wt_session is Some
        ||| env.domterm is Some
        ||| var_view(env.terminal_emulator) == Some("JetBrains-JediTerm"@)
    }
}

/// A character in lower case, for the letters of ASCII.
fn lower_char(c: char) -> (r: char)
    ensures
        r == ascii_lower(c),
{
    if 'A' <= c && c <= 'Z' {
        ((c as u8) + 32) as char
    } else {
        c
    }
}

/// Reads `FORCE_HYPERLINK`.
pub fn parse_force_hyperlink(value: &Option<String>) -> (r: Option<bool>)
    ensures
        r == forced(var_view(*value)),
{
    match value {
        None => None,
        Some(s) => {
            let chars = str_chars(s.as_str());
            let t = trim_chars(chars.as_slice());
            let mut lower: Vec<char> = Vec::new();
            let mut i: usize = 0;
            while i < t.len()
                invariant
                    i <= t@.len(),
                    lower@ == lowered(t@).take(i as int),
                decreases t@.len() - i,
            {
                lower.push(lower_char(t[i]));
                proof {
                    assert(lower@ =~= lowered(t@).take(i + 1));
                }
                i = i + 1;
            }
            proof {
                assert(lowered(t@).take(t@.len() as int) =~= lowered(t@));
            }
            let l = lower.as_slice();
            let off = chars_eq_str(l, "") || chars_eq_str(l, "0") || chars_eq_str(l, "false")
                || chars_eq_str(l, "no") || chars_eq_str(l, "off");
            Some(!off)
        },
    }
}

/// Reads a number as `str::parse::<u32>` does.
fn parse_u32_text(s: &str) -> (r: Option<u32>)
    ensures
        match u32_value(s@) {
            Some(n) => r == Some(n as u32),
            None => r is None,
        },
{
    let chars = str_chars(s);
    let mut from: usize = 0;
    if chars.len() > 0 && chars[0] == '+' {
        from = 1;
    }
    let ghost d = unsigned_digits(chars@);
    assert(d =~= chars@.subrange(from as int, chars@.len() as int));
    if from == chars.len() {
        return None;
    }
    let mut value: u64 = 0;
    let mut i = from;
    while i < chars.len()
        invariant
            from <= i <= chars@.len(),
            from < chars@.len(),
            d == chars@.subrange(from as int, chars@.len() as int),
            d == unsigned_digits(chars@),
            chars@ == s@,
            all_digits(chars@.subrange(from as int, i as int)),
            value as nat == digits_value(chars@.subrange(from as int, i as int)),
            value <= u32::MAX,
        decreases chars@.len() - i,
    {
        let c = chars[i];
        if c < '0' || c > '9' {
            proof {
                assert(d[i - from] == c);
            }
            return None;
        }
        let digit = (c as u64) - ('0' as u64);
        value = value * 10 + digit;
        proof {
            let p = chars@.subrange(from as int, i + 1);
            assert(p.drop_last() =~= chars@.subrange(from as int, i as int));
            assert(p.last() == c);
        }
        if value > 4294967295 {
            proof {
                crate::images::lemma_digits_value_prefix_bound(d, i + 1 - from);
                assert(d.take(i + 1 - from) =~= chars@.subrange(from as int, i + 1));
            }
            return None;
        }
        i = i + 1;
    }
    assert(chars@.subrange(from as int, chars@.len() as int) =~= d);
    Some(value as u32)
}

/// Whether an optional variable is set to the given text.
fn var_is(v: &Option<String>, expected: &str) -> (b: bool)
    ensures
        b == (var_view(*v) == Some(expected@)),
{
    match v {
        Some(s) => str_eq(s.as_str(), expected),
        None => false,
    }
}

/// Whether the terminal shows hyperlinks, judged from its environment.
pub fn hyperlinks_supported(env: &HyperlinkEnv) -> (b: bool)
    ensures
        b == hyperlinks_shown(*env),
{
    match parse_force_hyperlink(&env.force_hyperlink) {
        Some(force) => {
            return force;
        },
        None => {},
    }
    if env.tmux.is_some() || var_is(&env.term_program, "tmux") {
        return false;
    }
    let term: &str = match &env.term {
        Some(t) => t.as_str(),
        None => "",
    };
    proof {
        reveal_strlit("");
    }
    assert(term@ == or_empty(var_view(env.term)));
    let multiplexer = str_eq(term, "screen") || str_starts_with(term, "screen-") || str_starts_with(
        term,
        "screen.",
    ) || str_eq(term, "tmux") || str_starts_with(term, "tmux-");
    assert(multiplexer == multiplexer_term(term@));
    if multiplexer {
        return false;
    }
    let known_term = str_eq(term, "xterm-kitty") || str_eq(term, "alacritty") || str_eq(term, "foot")
        || str_eq(term, "foot-extra") || str_eq(term, "xterm-ghostty") || str_eq(term, "contour")
        || str_eq(term, "rio");
    let program: &str = match &env.term_program {
        Some(p) => p.as_str(),
        None => match &env.lc_terminal {
            Some(p) => p.as_str(),
            None => "",
        },
    };
    let known_program = str_eq(program, "iTerm.app") || str_eq(program, "iTerm2") || str_eq(
        program,
        "WezTerm",
    ) || str_eq(program, "ghostty") || str_eq(program, "vscode") || str_eq(program, "Hyper")
        || str_eq(program, "mintty") || str_eq(program, "terminology") || str_eq(program, "rio")
        || str_eq(program, "Tabby");
    assert(known_term == hyperlink_term(term@));
    assert(program@ == match var_view(env.term_program) {
        Some(p) => p,
        None => or_empty(var_view(env.lc_terminal)),
    });
    assert(known_program == hyperlink_program(program@));
    if known_term || known_program {
        return true;
    }
    let vte = match &env.vte_version {
        Some(v) => match parse_u32_text(v.as_str()) {
            Some(n) => n >= 5000,
            None => false,
        },
        None => false,
    };
    assert(vte == vte_shows_hyperlinks(var_view(env.vte_version)));
    if vte {
        return true;
    }
    env.konsole_version.is_some() || env.wt_session.is_some() || env.domterm.is_some() || var_is(
        &env.terminal_emulator,
        "JetBrains-JediTerm",
    )
}

} // verus!
