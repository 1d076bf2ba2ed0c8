//! Terminal emulators, what they support, and the graphics protocol to draw images with.
use crate::text_util::{has_substring, str_contains, str_eq};
use vstd::prelude::*;

verus! {

/// How the kitty graphics protocol hands images to the terminal.
#[derive(Clone, Copy, Debug, PartialEq, Eq, Structural)]
pub enum KittyMode {
    /// Through a file on the local file system.
    Local,
    /// Inline, within the escape sequence.
    Remote,
}

/// A protocol to draw images with.
#[derive(Clone, Copy, Debug, PartialEq, Eq, Structural)]
pub enum GraphicsMode {
    Iterm2,
    Iterm2Multipart,
    Kitty { mode: KittyMode },
    AsciiBlocks,
    Raw,
    Sixel,
}

/// What the terminal answered when asked what it supports.
#[derive(Clone, Copy, Debug, PartialEq, Eq, Structural)]
pub struct TerminalCapabilities {
    pub kitty_local: bool,
    pub kitty_remote: bool,
    pub sixel: bool,
    pub tmux: bool,
    pub font_size: bool,
    pub fractional_font_size: bool,
    pub hyperlinks: bool,
}

impl TerminalCapabilities {
    /// No capability at all.
    pub open spec fn none() -> Self {
        TerminalCapabilities {
            kitty_local: false,
            kitty_remote: false,
            sixel: false,
            tmux: false,
            font_size: false,
            fractional_font_size: false,
            hyperlinks: false,
        }
    }
}

impl Default for TerminalCapabilities {
    fn default() -> (c: Self)
        ensures
            c == TerminalCapabilities::none(),
    {
        TerminalCapabilities {
            kitty_local: false,
            kitty_remote: false,
            sixel: false,
            tmux: false,
            font_size: false,
            fractional_font_size: false,
            hyperlinks: false,
        }
    }
}

/// The environment variables that tell terminal emulators apart.
#[derive(Clone, Debug)]
pub struct TerminalEnv {
    /// `TERM`, empty when unset.
    pub term: String,
    /// `TERM_PROGRAM`, empty when unset.
    pub term_program: String,
    /// `LC_TERMINAL`, if set.
    pub lc_terminal: Option<String>,
    /// Whether `WEZTERM_EXECUTABLE` is set.
    pub wezterm_executable: bool,
    /// Whether `KONSOLE_VERSION` is set.
    pub konsole_version: bool,
}

/// A terminal emulator.
#[derive(Clone, Copy, Debug, PartialEq, Eq, Structural)]
pub enum TerminalEmulator {
    Iterm2,
    WezTerm,
    Ghostty,
    Mintty,
    Kitty,
    Konsole,
    Foot,
    Yaft,
    Mlterm,
    St,
    Xterm,
    Unknown,
}

/// Whether `s` is one of the given names.
pub open spec fn is_one_of(s: Seq<char>, names: Seq<Seq<char>>) -> bool {
    exists|i: int| 0 <= i < names.len() && names[i] == s
}

impl TerminalEmulator {
    /// Whether the environment shows this emulator.
    pub open spec fn detected_in(self, env: TerminalEnv) -> bool {
        let term = env.term@;
        let program = env.term_program@;
        match self {
            TerminalEmulator::Iterm2 => has_substring(program, "iTerm"@) || (env.lc_terminal matches Some(
                c,
            ) && has_substring(c@, "iTerm"@)),
            TerminalEmulator::WezTerm => has_substring(program, "WezTerm"@) || env.wezterm_executable,
            TerminalEmulator::Mintty => has_substring(program, "mintty"@),
            TerminalEmulator::Ghostty => has_substring(program, "ghostty"@),
            TerminalEmulator::Kitty => has_substring(term, "kitty"@),
            TerminalEmulator::Konsole => env.konsole_version,
            TerminalEmulator::Foot => term == "foot"@ || term == "foot-extra"@,
            TerminalEmulator::Yaft => term == "yaft-256color"@,
            TerminalEmulator::Mlterm => term == "mlterm"@,
            TerminalEmulator::St => term == "st-256color"@,
            TerminalEmulator::Xterm => term == "xterm"@ || term == "xterm-256color"@,
            TerminalEmulator::Unknown => true,
        }
    }

    /// The emulators in the order in which they are looked for.
    pub open spec fn search_order() -> Seq<TerminalEmulator> {
        seq![
            TerminalEmulator::Iterm2,
            TerminalEmulator::WezTerm,
            TerminalEmulator::Ghostty,
            TerminalEmulator::Mintty,
            TerminalEmulator::Kitty,
            TerminalEmulator::Konsole,
            TerminalEmulator::Foot,
            TerminalEmulator::Yaft,
            TerminalEmulator::Mlterm,
            TerminalEmulator::St,
            TerminalEmulator::Xterm,
            TerminalEmulator::Unknown,
        ]
    }

    /// The first emulator, in search order, that the environment shows.
    pub open spec fn detect_spec(env: TerminalEnv) -> TerminalEmulator {
        let order = Self::search_order();
        let i = choose|i: int|
            0 <= i < order.len() && order[i].detected_in(env) && forall|j: int|
                0 <= j < i ==> !(#[trigger] order[j]).detected_in(env);
        order[i]
    }

    /// Whether the environment shows this emulator.
    pub fn is_detected(&self, env: &TerminalEnv) -> (b: bool)
        ensures
            b == self.detected_in(*env),
    {
        let term = env.term.as_str();
        let program = env.term_program.as_str();
        match self {
            TerminalEmulator::Iterm2 => {
                str_contains(program, "iTerm") || match &env.lc_terminal {
                    Some(c) => str_contains(c.as_str(), "iTerm"),
                    None => false,
                }
            },
            TerminalEmulator::WezTerm => str_contains(program, "WezTerm") || env.wezterm_executable,
            TerminalEmulator::Mintty => str_contains(program, "mintty"),
            TerminalEmulator::Ghostty => str_contains(program, "ghostty"),
            TerminalEmulator::Kitty => str_contains(term, "kitty"),
            TerminalEmulator::Konsole => env.konsole_version,
            TerminalEmulator::Foot => str_eq(term, "foot") || str_eq(term, "foot-extra"),
            TerminalEmulator::Yaft => str_eq(term, "yaft-256color"),
            TerminalEmulator::Mlterm => str_eq(term, "mlterm"),
            TerminalEmulator::St => str_eq(term, "st-256color"),
            TerminalEmulator::Xterm => str_eq(term, "xterm") || str_eq(term, "xterm-256color"),
            TerminalEmulator::Unknown => true,
        }
    }

    /// The first emulator, in search order, that the environment shows; `Unknown` when no other
    /// one is shown.
    pub fn detect(env: &TerminalEnv) -> (e: TerminalEmulator)
        ensures
            e == Self::detect_spec(*env),
            e.detected_in(*env),
    {
        let order = [
            TerminalEmulator::Iterm2,
            TerminalEmulator::WezTerm,
            TerminalEmulator::Ghostty,
            TerminalEmulator::Mintty,
            TerminalEmulator::Kitty,
            TerminalEmulator::Konsole,
            TerminalEmulator::Foot,
            TerminalEmulator::Yaft,
            TerminalEmulator::Mlterm,
            TerminalEmulator::St,
            TerminalEmulator::Xterm,
            TerminalEmulator::Unknown,
        ];
        let ghost spec_order = Self::search_order();
        assert(order@ =~= spec_order);
        let mut i: usize = 0;
        while i < 11
            invariant
                i <= 11,
                order@ == spec_order,
                spec_order == Self::search_order(),
                forall|j: int| 0 <= j < i ==> !(#[trigger] spec_order[j]).detected_in(*env),
            decreases 11 - i,
        {
            if order[i].is_detected(env) {
                proof {
                    Self::lemma_detect_unique(*env, i as int);
                }
                return order[i];
            }
            i += 1;
        }
        proof {
            assert(spec_order[11].detected_in(*env));
            Self::lemma_detect_unique(*env, 11);
        }
        TerminalEmulator::Unknown
    }

    /// The first detected emulator is the one that `detect_spec` picks.
    proof fn lemma_detect_unique(env: TerminalEnv, i: int)
        requires
            0 <= i < 12,
            Self::search_order()[i].detected_in(env),
            forall|j: int| 0 <= j < i ==> !(#[trigger] Self::search_order()[j]).detected_in(env),
        ensures
            Self::detect_spec(env) == Self::search_order()[i],
    {
        let order = Self::search_order();
        let k = choose|k: int|
            0 <= k < order.len() && order[k].detected_in(env) && forall|j: int|
                0 <= j < k ==> !(#[trigger] order[j]).detected_in(env);
        assert(0 <= k < order.len() && order[k].detected_in(env));
        if k < i {
            assert(!order[k].detected_in(env));
        }
        if k > i {
            assert(!order[i].detected_in(env));
        }
    }

    /// Whether this emulator can draw images with the given protocol.
    pub open spec fn supports(self, mode: GraphicsMode, capabilities: TerminalCapabilities) -> bool {
        match mode {
            GraphicsMode::Kitty { mode } => match mode {
                KittyMode::Local => capabilities.kitty_local,
                KittyMode::Remote => capabilities.kitty_remote,
            },
            GraphicsMode::Iterm2 => self == TerminalEmulator::Iterm2 || self == TerminalEmulator::WezTerm
                || self == TerminalEmulator::Mintty || self == TerminalEmulator::Konsole,
            GraphicsMode::Iterm2Multipart => self == TerminalEmulator::Iterm2,
            GraphicsMode::AsciiBlocks => true,
            GraphicsMode::Sixel => if self == TerminalEmulator::Foot || self == TerminalEmulator::Yaft
                || self == TerminalEmulator::Mlterm {
                true
            } else if self == TerminalEmulator::St || self == TerminalEmulator::Xterm || self
                == TerminalEmulator::Unknown {
                capabilities.sixel
            } else {
                false
            },
            GraphicsMode::Raw => false,
        }
    }

    /// Whether this emulator can draw images with the given protocol.
    pub fn supports_graphics_mode(&self, mode: &GraphicsMode, capabilities: &TerminalCapabilities) -> (b:
        bool)
        ensures
            b == self.supports(*mode, *capabilities),
    {
        match mode {
            GraphicsMode::Kitty { mode } => match mode {
                KittyMode::Local => capabilities.kitty_local,
                KittyMode::Remote => capabilities.kitty_remote,
            },
            GraphicsMode::Iterm2 => match self {
                TerminalEmulator::Iterm2 | TerminalEmulator::WezTerm | TerminalEmulator::Mintty
                | TerminalEmulator::Konsole => true,
                _ => false,
            },
            GraphicsMode::Iterm2Multipart => match self {
                TerminalEmulator::Iterm2 => true,
                _ => false,
            },
            GraphicsMode::AsciiBlocks => true,
            GraphicsMode::Sixel => match self {
                TerminalEmulator::Foot | TerminalEmulator::Yaft | TerminalEmulator::Mlterm => true,
                TerminalEmulator::St | TerminalEmulator::Xterm | TerminalEmulator::Unknown => {
                    capabilities.sixel
                },
                _ => false,
            },
            GraphicsMode::Raw => false,
        }
    }

    /// The protocols in the order of preference: iterm2 first, kitty's local mode before its
    /// remote one, sixel as a last resort and ascii blocks, which every terminal supports, last.
    pub open spec fn preference_order() -> Seq<GraphicsMode> {
        seq![
            GraphicsMode::Iterm2,
            GraphicsMode::Iterm2Multipart,
            GraphicsMode::Kitty { mode: KittyMode::Local },
            GraphicsMode::Kitty { mode: KittyMode::Remote },
            GraphicsMode::Sixel,
            GraphicsMode::AsciiBlocks,
        ]
    }

    /// The first protocol, in order of preference, that this emulator supports.
    pub open spec fn preferred_spec(self, capabilities: TerminalCapabilities) -> GraphicsMode {
        let order = Self::preference_order();
        if self.supports(order[0], capabilities) {
            order[0]
        } else if self.supports(order[1], capabilities) {
            order[1]
        } else if self.supports(order[2], capabilities) {
            order[2]
        } else if self.supports(order[3], capabilities) {
            order[3]
        } else if self.supports(order[4], capabilities) {
            order[4]
        } else {
            order[5]
        }
    }

    /// The protocol to draw images with: the first, in order of preference, that this emulator
    /// supports given what the terminal answered.
    pub fn preferred_protocol(&self, capabilities: &TerminalCapabilities) -> (mode: GraphicsMode)
        ensures
            mode == self.preferred_spec(*capabilities),
            self.supports(mode, *capabilities),
            forall|i: int|
                0 <= i < Self::preference_order().len() && Self::preference_order()[i] != mode
                    && self.supports(Self::preference_order()[i], *capabilities) ==> exists|j: int|
                    0 <= j < i && Self::preference_order()[j] == mode,
    {
        let modes = [
            GraphicsMode::Iterm2,
            GraphicsMode::Iterm2Multipart,
            GraphicsMode::Kitty { mode: KittyMode::Local },
            GraphicsMode::Kitty { mode: KittyMode::Remote },
            GraphicsMode::Sixel,
            GraphicsMode::AsciiBlocks,
        ];
        let ghost order = Self::preference_order();
        assert(modes@ =~= order);
        let mut i: usize = 0;
        while i < 5
            invariant
                i <= 5,
                modes@ == order,
                order == Self::preference_order(),
                forall|j: int| 0 <= j < i ==> !self.supports(#[trigger] order[j], *capabilities),
            decreases 5 - i,
        {
            if self.supports_graphics_mode(&modes[i], capabilities) {
                proof {
                    assert forall|k: int|
                        0 <= k < order.len() && order[k] != modes[i as int] && self.supports(
                            order[k],
                            *capabilities,
                        ) implies exists|j: int| 0 <= j < k && order[j] == modes[i as int] by {
                        if k < i {
                            assert(!self.supports(order[k], *capabilities));
                        }
                        assert(order[i as int] == modes[i as int]);
                    }
                }
                return modes[i];
            }
            i += 1;
        }
        proof {
            assert forall|k: int|
                0 <= k < order.len() && order[k] != GraphicsMode::AsciiBlocks && self.supports(
                    order[k],
                    *capabilities,
                ) implies exists|j: int| 0 <= j < k && order[j] == GraphicsMode::AsciiBlocks by {
                if k < 5 {
                    assert(!self.supports(order[k], *capabilities));
                }
            }
            assert(!self.supports(order[0], *capabilities));
            assert(!self.supports(order[1], *capabilities));
            assert(!self.supports(order[2], *capabilities));
            assert(!self.supports(order[3], *capabilities));
            assert(!self.supports(order[4], *capabilities));
        }
        GraphicsMode::AsciiBlocks
    }
}

} // verus!
