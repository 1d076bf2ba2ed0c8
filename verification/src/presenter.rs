//! The presenter's decisions: what a user command does to the presentation being shown, and
//! what the presenter is to do next.
use crate::diff::first_modification;
use crate::options::PresentMode;
use crate::presentation::{
    nav_go_to_slide, nav_jump_next, nav_jump_next_fast, nav_jump_previous, nav_jump_previous_fast,
    nav_with_current, state_jump_chunk, state_show_all, NavState, Presentation,
};
use vstd::prelude::*;

verus! {

/// A command from the user.
#[derive(Clone, Copy, Debug, PartialEq, Eq, Structural)]
pub enum Command {
    Redraw,
    Next,
    NextFast,
    Previous,
    PreviousFast,
    FirstSlide,
    LastSlide,
    GoToSlide(u32),
    GoToSlideChunk { slide: u32, chunk: u32 },
    RenderAsyncOperations,
    Exit,
    Suspend,
    Reload,
    HardReload,
    ToggleSlideIndex,
    ToggleKeyBindingsConfig,
    CloseModal,
    SkipPauses,
}

/// What the presenter is to do after a command.
#[derive(Clone, Copy, Debug, PartialEq, Eq, Structural)]
pub enum CommandSideEffect {
    Exit,
    Suspend,
    Reload,
    Redraw,
    AnimateNextSlide,
    AnimatePreviousSlide,
    Nothing,
}

/// Why an error is shown.
#[derive(Clone, Copy, Debug, PartialEq, Eq, Structural)]
pub enum FailureMode {
    /// The presentation doesn't fit in the screen.
    Overflow,
    /// Anything else.
    Other,
}

/// Where an error came from.
#[derive(Clone, Copy, Debug, PartialEq, Eq, Structural)]
pub enum ErrorSource {
    Presentation,
    Slide(usize),
}

/// What the presenter shows.
pub enum PresenterState {
    Empty,
    Presenting(Presentation),
    SlideIndex(Presentation),
    KeyBindings(Presentation),
    Failure { error: String, presentation: Presentation, source: ErrorSource, mode: FailureMode },
}

/// What the presenter shows, without the presentation.
#[derive(Clone, Copy, Debug, PartialEq, Eq, Structural)]
pub enum StateKind {
    Empty,
    Presenting,
    SlideIndex,
    KeyBindings,
    Failure(FailureMode),
}

impl PresenterState {
    /// What is shown.
    pub open spec fn kind(&self) -> StateKind {
        match *self {
            PresenterState::Empty => StateKind::Empty,
            PresenterState::Presenting(_) => StateKind::Presenting,
            PresenterState::SlideIndex(_) => StateKind::SlideIndex,
            PresenterState::KeyBindings(_) => StateKind::KeyBindings,
            PresenterState::Failure { mode, .. } => StateKind::Failure(mode),
        }
    }

    /// The presentation held, if any.
    pub open spec fn presentation_of(&self) -> Option<Presentation> {
        match *self {
            PresenterState::Empty => None,
            PresenterState::Presenting(p) => Some(p),
            PresenterState::SlideIndex(p) => Some(p),
            PresenterState::KeyBindings(p) => Some(p),
            PresenterState::Failure { presentation, .. } => Some(presentation),
        }
    }

    /// Every presentation held is well formed.
    pub open spec fn wf(&self) -> bool {
        self.presentation_of() matches Some(p) ==> p.wf()
    }

    /// The navigation state of the presentation held.
    pub open spec fn nav(&self) -> NavState {
        self.presentation_of().unwrap().nav()
    }
}

/// What the presenter is to do after a command: the side effect, whether the cached
/// resources are to be dropped, and whether the presentation is to be checked for overflows.
#[derive(Clone, Copy, Debug, PartialEq, Eq, Structural)]
pub struct CommandOutcome {
    pub effect: CommandSideEffect,
    pub clear_resources: bool,
    pub validate_overflows: bool,
}

/// An outcome with only a side effect.
pub open spec fn effect_only(effect: CommandSideEffect) -> CommandOutcome {
    CommandOutcome { effect, clear_resources: false, validate_overflows: false }
}

/// Whether a state shows the presentation, maybe with a modal over it.
pub open spec fn is_navigable(kind: StateKind) -> bool {
    kind == StateKind::Presenting || kind == StateKind::SlideIndex || kind == StateKind::KeyBindings
}

/// The outcome of a navigation that moved or not.
pub open spec fn redraw_if(moved: bool) -> CommandOutcome {
    if moved {
        effect_only(CommandSideEffect::Redraw)
    } else {
        effect_only(CommandSideEffect::Nothing)
    }
}

/// A slide number counted from 1, as an index counted from 0.
pub open spec fn slide_number_index(number: u32) -> usize {
    (if number == 0 {
        0
    } else {
        number - 1
    }) as usize
}

/// What a command does: the kind of state shown afterwards, the navigation state afterwards
/// (for states that hold a presentation), and the outcome. Asking for the pending background
/// renders of a slide does nothing: no render operation of this library runs in the background.
pub open spec fn command_result(
    kind: StateKind,
    nav: NavState,
    mode: PresentMode,
    validate: bool,
    command: Command,
) -> (StateKind, NavState, CommandOutcome) {
    match command {
        Command::Reload => (kind, nav, effect_only(CommandSideEffect::Reload)),
        Command::HardReload => (
            kind,
            nav,
            CommandOutcome {
                effect: CommandSideEffect::Reload,
                clear_resources: mode == PresentMode::Development,
                validate_overflows: false,
            },
        ),
        Command::Exit => (kind, nav, effect_only(CommandSideEffect::Exit)),
        Command::Suspend => (kind, nav, effect_only(CommandSideEffect::Suspend)),
        Command::Redraw => if kind == StateKind::Failure(FailureMode::Other) {
            (kind, nav, effect_only(CommandSideEffect::Redraw))
        } else {
            (
                StateKind::Presenting,
                nav,
                CommandOutcome {
                    effect: CommandSideEffect::Redraw,
                    clear_resources: false,
                    validate_overflows: validate,
                },
            )
        },
        _ => if !is_navigable(kind) {
            (kind, nav, effect_only(CommandSideEffect::Nothing))
        } else {
            match command {
                Command::Next => {
                    let (n, moved) = nav_jump_next(nav);
                    let outcome = if !moved {
                        effect_only(CommandSideEffect::Nothing)
                    } else if n.current != nav.current {
                        effect_only(CommandSideEffect::AnimateNextSlide)
                    } else {
                        effect_only(CommandSideEffect::Redraw)
                    };
                    (kind, n, outcome)
                },
                Command::Previous => {
                    let (n, moved) = nav_jump_previous(nav);
                    let outcome = if !moved {
                        effect_only(CommandSideEffect::Nothing)
                    } else if n.current != nav.current {
                        effect_only(CommandSideEffect::AnimatePreviousSlide)
                    } else {
                        effect_only(CommandSideEffect::Redraw)
                    };
                    (kind, n, outcome)
                },
                Command::NextFast => {
                    let (n, moved) = nav_jump_next_fast(nav);
                    (kind, n, redraw_if(moved))
                },
                Command::PreviousFast => {
                    let (n, moved) = nav_jump_previous_fast(nav);
                    (kind, n, redraw_if(moved))
                },
                Command::FirstSlide => {
                    let (n, moved) = nav_go_to_slide(nav, 0);
                    (kind, n, redraw_if(moved))
                },
                Command::LastSlide => {
                    let (n, moved) = nav_go_to_slide(nav, (nav.slides.len() - 1) as usize);
                    (kind, n, redraw_if(moved))
                },
                Command::GoToSlide(number) => {
                    let (n, moved) = nav_go_to_slide(nav, slide_number_index(number));
                    (kind, n, redraw_if(moved))
                },
                Command::GoToSlideChunk { slide, chunk } => {
                    let (n, _) = nav_go_to_slide(nav, slide_number_index(slide));
                    let n2 = nav_with_current(n, state_jump_chunk(n.slides[n.current], chunk as usize));
                    (kind, n2, effect_only(CommandSideEffect::Redraw))
                },
                Command::ToggleSlideIndex => {
                    let k = if kind == StateKind::SlideIndex {
                        StateKind::Presenting
                    } else {
                        StateKind::SlideIndex
                    };
                    (k, nav, effect_only(CommandSideEffect::Redraw))
                },
                Command::ToggleKeyBindingsConfig => {
                    let k = if kind == StateKind::KeyBindings {
                        StateKind::Presenting
                    } else {
                        StateKind::KeyBindings
                    };
                    (k, nav, effect_only(CommandSideEffect::Redraw))
                },
                Command::CloseModal => (
                    StateKind::Presenting,
                    nav,
                    effect_only(CommandSideEffect::Redraw),
                ),
                Command::SkipPauses => (
                    kind,
                    nav_with_current(nav, state_show_all(nav.slides[nav.current])),
                    effect_only(CommandSideEffect::Redraw),
                ),
                _ => (kind, nav, effect_only(CommandSideEffect::Nothing)),
            }
        },
    }
}

/// Whether a command leaves what is shown exactly as it was, the error shown and where it came
/// from included: reloads, exits and suspensions, which are passed on; a redraw over an error
/// other than an overflow; and every other command but a redraw while no presentation is
/// navigable.
pub open spec fn state_kept(kind: StateKind, command: Command) -> bool {
    ||| command is Reload || command is HardReload || command is Exit || command is Suspend
    ||| command is Redraw && kind == StateKind::Failure(FailureMode::Other)
    ||| !(command is Redraw) && !is_navigable(kind)
}

/// The presenter: what it shows and how it runs.
pub struct Presenter {
    pub state: PresenterState,
    pub mode: PresentMode,
    pub validate_overflows: bool,
}

/// A navigable state of the given kind holding the presentation.
fn navigable_state(kind: StateKind, presentation: Presentation) -> (s: PresenterState)
    requires
        is_navigable(kind),
    ensures
        s.kind() == kind,
        s.presentation_of() == Some(presentation),
{
    match kind {
        StateKind::SlideIndex => PresenterState::SlideIndex(presentation),
        StateKind::KeyBindings => PresenterState::KeyBindings(presentation),
        _ => PresenterState::Presenting(presentation),
    }
}

impl Presenter {
    /// Whether the presenter shows an error other than an overflow.
    fn is_displaying_other_error(&self) -> (b: bool)
        ensures
            b == (self.state.kind() == StateKind::Failure(FailureMode::Other)),
    {
        match &self.state {
            PresenterState::Failure { mode: FailureMode::Other, .. } => true,
            _ => false,
        }
    }

    /// Applies a command: reloads, exits and suspensions are passed on; a redraw shows the
    /// presentation again, to be checked for overflows when asked to; the rest move through the
    /// presentation or toggle modals, only when a presentation is shown. Moving to another slide
    /// forwards or backwards is to be animated.
    pub fn apply_command(&mut self, command: Command) -> (o: CommandOutcome)
        requires
            old(self).state.wf(),
            command is Redraw && old(self).state.kind() != StateKind::Failure(FailureMode::Other)
                ==> old(self).state.kind() != StateKind::Empty,
        ensures
            final(self).state.wf(),
            final(self).mode == old(self).mode,
            final(self).validate_overflows == old(self).validate_overflows,
            ({
                let (kind, nav, outcome) = command_result(
                    old(self).state.kind(),
                    old(self).state.nav(),
                    old(self).mode,
                    old(self).validate_overflows,
                    command,
                );
                &&& final(self).state.kind() == kind
                &&& o == outcome
                &&& (final(self).state.presentation_of() is Some) == (kind != StateKind::Empty)
                &&& kind != StateKind::Empty ==> final(self).state.nav() == nav
                &&& kind != StateKind::Empty ==> final(self).state.presentation_of().unwrap().unchanged_contents(
                    &old(self).state.presentation_of().unwrap(),
                )
            }),
            state_kept(old(self).state.kind(), command) ==> final(self).state == old(self).state,
    {
        match command {
            Command::Reload => {
                return CommandOutcome {
                    effect: CommandSideEffect::Reload,
                    clear_resources: false,
                    validate_overflows: false,
                };
            },
            Command::HardReload => {
                let clear = match self.mode {
                    PresentMode::Development => true,
                    PresentMode::Presentation => false,
                };
                return CommandOutcome {
                    effect: CommandSideEffect::Reload,
                    clear_resources: clear,
                    validate_overflows: false,
                };
            },
            Command::Exit => {
                return CommandOutcome {
                    effect: CommandSideEffect::Exit,
                    clear_resources: false,
                    validate_overflows: false,
                };
            },
            Command::Suspend => {
                return CommandOutcome {
                    effect: CommandSideEffect::Suspend,
                    clear_resources: false,
                    validate_overflows: false,
                };
            },
            _ => {},
        }
        if command == Command::Redraw {
            if !self.is_displaying_other_error() {
                let mut state = PresenterState::Empty;
                std::mem::swap(&mut state, &mut self.state);
                let presentation = match state {
                    PresenterState::Presenting(p) => p,
                    PresenterState::SlideIndex(p) => p,
                    PresenterState::KeyBindings(p) => p,
                    PresenterState::Failure { presentation, .. } => presentation,
                    PresenterState::Empty => {
                        proof {
                            assert(false);
                        }
                        return CommandOutcome {
                            effect: CommandSideEffect::Redraw,
                            clear_resources: false,
                            validate_overflows: false,
                        };
                    },
                };
                self.state = PresenterState::Presenting(presentation);
                return CommandOutcome {
                    effect: CommandSideEffect::Redraw,
                    clear_resources: false,
                    validate_overflows: self.validate_overflows,
                };
            }
            return CommandOutcome {
                effect: CommandSideEffect::Redraw,
                clear_resources: false,
                validate_overflows: false,
            };
        }
        let mut state = PresenterState::Empty;
        std::mem::swap(&mut state, &mut self.state);
        let (kind, mut presentation) = match state {
            PresenterState::Presenting(p) => (StateKind::Presenting, p),
            PresenterState::SlideIndex(p) => (StateKind::SlideIndex, p),
            PresenterState::KeyBindings(p) => (StateKind::KeyBindings, p),
            other => {
                self.state = other;
                return CommandOutcome {
                    effect: CommandSideEffect::Nothing,
                    clear_resources: false,
                    validate_overflows: false,
                };
            },
        };
        let ghost p0 = presentation;
        let none = CommandOutcome {
            effect: CommandSideEffect::Nothing,
            clear_resources: false,
            validate_overflows: false,
        };
        let redraw = CommandOutcome {
            effect: CommandSideEffect::Redraw,
            clear_resources: false,
            validate_overflows: false,
        };
        let (new_kind, outcome) = match command {
            Command::Next => {
                let current = presentation.current_slide_index();
                let outcome = if !presentation.jump_next() {
                    none
                } else if presentation.current_slide_index() != current {
                    CommandOutcome {
                        effect: CommandSideEffect::AnimateNextSlide,
                        clear_resources: false,
                        validate_overflows: false,
                    }
                } else {
                    redraw
                };
                (kind, outcome)
            },
            Command::Previous => {
                let current = presentation.current_slide_index();
                let outcome = if !presentation.jump_previous() {
                    none
                } else if presentation.current_slide_index() != current {
                    CommandOutcome {
                        effect: CommandSideEffect::AnimatePreviousSlide,
                        clear_resources: false,
                        validate_overflows: false,
                    }
                } else {
                    redraw
                };
                (kind, outcome)
            },
            Command::NextFast => {
                let moved = presentation.jump_next_fast();
                (kind, if moved { redraw } else { none })
            },
            Command::PreviousFast => {
                let moved = presentation.jump_previous_fast();
                (kind, if moved { redraw } else { none })
            },
            Command::FirstSlide => {
                let moved = presentation.jump_first_slide();
                (kind, if moved { redraw } else { none })
            },
            Command::LastSlide => {
                let moved = presentation.jump_last_slide();
                (kind, if moved { redraw } else { none })
            },
            Command::GoToSlide(number) => {
                let moved = presentation.go_to_slide(number.saturating_sub(1) as usize);
                (kind, if moved { redraw } else { none })
            },
            Command::GoToSlideChunk { slide, chunk } => {
                let ghost p1 = presentation;
                presentation.go_to_slide(slide.saturating_sub(1) as usize);
                let ghost p2 = presentation;
                presentation.jump_chunk(chunk as usize);
                proof {
                    assert(presentation.unchanged_contents(&p0));
                }
                (kind, redraw)
            },
            Command::ToggleSlideIndex => {
                let k = match kind {
                    StateKind::SlideIndex => StateKind::Presenting,
                    _ => StateKind::SlideIndex,
                };
                (k, redraw)
            },
            Command::ToggleKeyBindingsConfig => {
                let k = match kind {
                    StateKind::KeyBindings => StateKind::Presenting,
                    _ => StateKind::KeyBindings,
                };
                (k, redraw)
            },
            Command::CloseModal => (StateKind::Presenting, redraw),
            Command::SkipPauses => {
                presentation.show_all_slide_chunks();
                (kind, redraw)
            },
            _ => (kind, none),
        };
        self.state = navigable_state(new_kind, presentation);
        outcome
    }
}

impl Presenter {
    /// A presenter of the given mode, showing nothing yet.
    pub fn new(mode: PresentMode, validate_overflows: bool) -> (p: Self)
        ensures
            p.state.kind() == StateKind::Empty,
            p.mode == mode,
            p.validate_overflows == validate_overflows,
    {
        Presenter { state: PresenterState::Empty, mode, validate_overflows }
    }

    /// Starts showing a presentation.
    pub fn show(&mut self, presentation: Presentation)
        requires
            presentation.wf(),
        ensures
            final(self).state.kind() == StateKind::Presenting,
            final(self).state.presentation_of() == Some(presentation),
            final(self).state.wf(),
            final(self).mode == old(self).mode,
            final(self).validate_overflows == old(self).validate_overflows,
    {
        self.state = PresenterState::Presenting(presentation);
    }

    /// Shows an error over the presentation being shown, which is kept.
    pub fn fail(&mut self, error: String, source: ErrorSource, mode: FailureMode)
        requires
            old(self).state.wf(),
            old(self).state.kind() != StateKind::Empty,
        ensures
            final(self).state.kind() == StateKind::Failure(mode),
            final(self).state matches PresenterState::Failure { error: e, source: s, mode: m, .. }
                && e@ == error@ && s == source && m == mode,
            final(self).state.presentation_of() == old(self).state.presentation_of(),
            final(self).state.wf(),
            final(self).mode == old(self).mode,
            final(self).validate_overflows == old(self).validate_overflows,
    {
        let mut state = PresenterState::Empty;
        std::mem::swap(&mut state, &mut self.state);
        let presentation = match state {
            PresenterState::Presenting(p) => p,
            PresenterState::SlideIndex(p) => p,
            PresenterState::KeyBindings(p) => p,
            PresenterState::Failure { presentation, .. } => presentation,
            PresenterState::Empty => {
                proof {
                    assert(false);
                }
                return;
            },
        };
        self.state = PresenterState::Failure { error, presentation, source, mode };
    }
}

/// A presentation's navigation moved to a chunk of a slide, as going to the slide and then
/// jumping to the chunk leaves it.
pub open spec fn nav_at(nav: NavState, slide: usize, chunk: usize) -> NavState {
    let (n, _) = nav_go_to_slide(nav, slide);
    nav_with_current(n, state_jump_chunk(n.slides[n.current], chunk))
}

/// Where a reloaded presentation is to be shown: the first place where it differs from the one
/// being shown, or else where that one was.
pub open spec fn reload_target(current: Presentation, new: Presentation) -> (usize, usize) {
    match first_modification(current.slides@, new.slides@) {
        Some(m) => (m.slide_index, m.chunk_index),
        None => (
            current.state.current_slide_index,
            (current.slides@[current.state.current_slide_index as int].visible_chunks - 1) as usize,
        ),
    }
}

/// A reloaded presentation, placed where it is to be shown; no reload in presentation mode
/// unless it is forced.
pub fn reload_position(current: &Presentation, new: Presentation, mode: PresentMode, force: bool) -> (r: Option<Presentation>)
    requires
        current.wf(),
        new.wf(),
    ensures
        (r is None) == (mode == PresentMode::Presentation && !force),
        r matches Some(p) ==> {
            let (slide, chunk) = reload_target(*current, new);
            &&& p.wf()
            &&& p.unchanged_contents(&new)
            &&& p.nav() == nav_at(new.nav(), slide, chunk)
        },
{
    if !force {
        match mode {
            PresentMode::Presentation => {
                return None;
            },
            PresentMode::Development => {},
        }
    }
    let mut presentation = new;
    let target: (usize, usize) = match current.find_first_modification(&presentation) {
        Some(modification) => (modification.slide_index, modification.chunk_index),
        None => (current.current_slide_index(), current.current_chunk()),
    };
    let ghost p0 = presentation;
    presentation.go_to_slide(target.0);
    presentation.jump_chunk(target.1);
    assert(presentation.unchanged_contents(&p0));
    Some(presentation)
}

/// Opening the slide index and closing it again, by the same command, leaves the presenter
/// showing the presentation where it was.
pub proof fn lemma_toggle_slide_index_twice(nav: NavState, mode: PresentMode, validate: bool)
    ensures
        ({
            let (k1, n1, o1) = command_result(
                StateKind::Presenting,
                nav,
                mode,
                validate,
                Command::ToggleSlideIndex,
            );
            let (k2, n2, o2) = command_result(k1, n1, mode, validate, Command::ToggleSlideIndex);
            k1 == StateKind::SlideIndex && k2 == StateKind::Presenting && n2 == nav && o1.effect
                == CommandSideEffect::Redraw && o2.effect == CommandSideEffect::Redraw
        }),
{
}

/// The same holds of the key bindings modal.
pub proof fn lemma_toggle_key_bindings_twice(nav: NavState, mode: PresentMode, validate: bool)
    ensures
        ({
            let (k1, n1, _) = command_result(
                StateKind::Presenting,
                nav,
                mode,
                validate,
                Command::ToggleKeyBindingsConfig,
            );
            let (k2, n2, _) = command_result(k1, n1, mode, validate, Command::ToggleKeyBindingsConfig);
            k1 == StateKind::KeyBindings && k2 == StateKind::Presenting && n2 == nav
        }),
{
}

/// Reloads, exits and suspensions are passed on whatever is shown, and change nothing.
pub proof fn lemma_passed_on_commands(
    kind: StateKind,
    nav: NavState,
    mode: PresentMode,
    validate: bool,
    command: Command,
)
    requires
        command is Reload || command is HardReload || command is Exit || command is Suspend,
    ensures
        ({
            let (k, n, o) = command_result(kind, nav, mode, validate, command);
            &&& k == kind && n == nav
            &&& command is Exit ==> o.effect == CommandSideEffect::Exit
            &&& command is Suspend ==> o.effect == CommandSideEffect::Suspend
            &&& (command is Reload || command is HardReload) ==> o.effect == CommandSideEffect::Reload
            &&& o.clear_resources ==> (command is HardReload && mode == PresentMode::Development)
        }),
{
}

/// Navigation does nothing while an error is shown: only a redraw shows the presentation
/// again, unless the error isn't an overflow.
pub proof fn lemma_failure_blocks_navigation(
    mode_of_failure: FailureMode,
    nav: NavState,
    mode: PresentMode,
    validate: bool,
    command: Command,
)
    requires
        !(command is Reload || command is HardReload || command is Exit || command is Suspend
            || command is Redraw),
    ensures
        command_result(StateKind::Failure(mode_of_failure), nav, mode, validate, command) == (
            StateKind::Failure(mode_of_failure),
            nav,
            effect_only(CommandSideEffect::Nothing),
        ),
{
}

} // verus!
