use presenterm::options::PresentMode;
use presenterm::presentation::{Presentation, Slide, SlideChunk};
use presenterm::presenter::{
    reload_position, Command, CommandSideEffect, ErrorSource, FailureMode, Presenter, PresenterState,
};

fn chunk() -> SlideChunk {
    SlideChunk::new(Vec::new(), Vec::new())
}

fn presentation() -> Presentation {
    let slides = vec![Slide::new(vec![chunk(), chunk()], Vec::new()), Slide::new(vec![chunk()], Vec::new())];
    Presentation::from_slides(slides)
}

fn presenter(mode: PresentMode) -> Presenter {
    let mut p = Presenter::new(mode, true);
    p.show(presentation());
    p
}

fn current(p: &Presenter) -> (usize, usize) {
    match &p.state {
        PresenterState::Presenting(pr)
        | PresenterState::SlideIndex(pr)
        | PresenterState::KeyBindings(pr)
        | PresenterState::Failure { presentation: pr, .. } => (pr.current_slide_index(), pr.current_chunk()),
        PresenterState::Empty => panic!("empty"),
    }
}

#[test]
fn next_within_a_slide_redraws_and_across_slides_animates() {
    let mut p = presenter(PresentMode::Presentation);
    assert_eq!(p.apply_command(Command::Next).effect, CommandSideEffect::Redraw);
    assert_eq!(current(&p), (0, 1));
    assert_eq!(p.apply_command(Command::Next).effect, CommandSideEffect::AnimateNextSlide);
    assert_eq!(current(&p), (1, 0));
    assert_eq!(p.apply_command(Command::Next).effect, CommandSideEffect::Nothing);
    assert_eq!(p.apply_command(Command::Previous).effect, CommandSideEffect::AnimatePreviousSlide);
    assert_eq!(current(&p), (0, 1));
}

#[test]
fn go_to_slides() {
    let mut p = presenter(PresentMode::Presentation);
    assert_eq!(p.apply_command(Command::GoToSlide(2)).effect, CommandSideEffect::Redraw);
    assert_eq!(current(&p), (1, 0));
    assert_eq!(p.apply_command(Command::GoToSlide(5)).effect, CommandSideEffect::Nothing);
    assert_eq!(p.apply_command(Command::FirstSlide).effect, CommandSideEffect::Redraw);
    assert_eq!(current(&p), (0, 0));
    p.apply_command(Command::GoToSlideChunk { slide: 1, chunk: 1 });
    assert_eq!(current(&p), (0, 1));
    p.apply_command(Command::LastSlide);
    assert_eq!(current(&p), (1, 0));
}

#[test]
fn modals_toggle() {
    let mut p = presenter(PresentMode::Presentation);
    p.apply_command(Command::ToggleSlideIndex);
    assert!(matches!(p.state, PresenterState::SlideIndex(_)));
    p.apply_command(Command::ToggleKeyBindingsConfig);
    assert!(matches!(p.state, PresenterState::KeyBindings(_)));
    p.apply_command(Command::CloseModal);
    assert!(matches!(p.state, PresenterState::Presenting(_)));
}

#[test]
fn hard_reload_clears_resources_only_in_development() {
    let mut dev = presenter(PresentMode::Development);
    let outcome = dev.apply_command(Command::HardReload);
    assert_eq!(outcome.effect, CommandSideEffect::Reload);
    assert!(outcome.clear_resources);
    let mut live = presenter(PresentMode::Presentation);
    assert!(!live.apply_command(Command::HardReload).clear_resources);
    assert_eq!(live.apply_command(Command::Exit).effect, CommandSideEffect::Exit);
}

#[test]
fn errors_block_navigation_until_redrawn() {
    let mut p = presenter(PresentMode::Presentation);
    p.fail("too big".into(), ErrorSource::Presentation, FailureMode::Overflow);
    assert_eq!(p.apply_command(Command::Next).effect, CommandSideEffect::Nothing);
    let outcome = p.apply_command(Command::Redraw);
    assert_eq!(outcome.effect, CommandSideEffect::Redraw);
    assert!(outcome.validate_overflows);
    assert!(matches!(p.state, PresenterState::Presenting(_)));
    p.fail("broken".into(), ErrorSource::Slide(1), FailureMode::Other);
    p.apply_command(Command::Redraw);
    assert!(matches!(p.state, PresenterState::Failure { mode: FailureMode::Other, .. }));
}

#[test]
fn skip_pauses_shows_every_chunk() {
    let mut p = presenter(PresentMode::Presentation);
    assert_eq!(p.apply_command(Command::SkipPauses).effect, CommandSideEffect::Redraw);
    assert_eq!(current(&p), (0, 1));
}

#[test]
fn ignored_commands_keep_the_error_shown() {
    let mut p = presenter(PresentMode::Development);
    p.fail("it broke".to_string(), ErrorSource::Slide(2), FailureMode::Overflow);
    assert_eq!(p.apply_command(Command::Next).effect, CommandSideEffect::Nothing);
    match &p.state {
        PresenterState::Failure { error, source, mode, .. } => {
            assert_eq!(error, "it broke");
            assert_eq!(*source, ErrorSource::Slide(2));
            assert_eq!(*mode, FailureMode::Overflow);
        }
        _ => panic!("not failing"),
    }
}

fn text_slide(texts: &[&str]) -> Slide {
    let chunks = texts
        .iter()
        .map(|t| {
            SlideChunk::new(
                vec![presenterm::operation::RenderOperation::RenderText {
                    line: presenterm::text::WeightedLine::from_str(t),
                    alignment: presenterm::theme::Alignment::default(),
                }],
                Vec::new(),
            )
        })
        .collect();
    Slide::new(chunks, Vec::new())
}

fn position(p: &Presentation) -> (usize, usize) {
    (p.current_slide_index(), p.current_chunk())
}

#[test]
fn reload_goes_to_the_first_change() {
    let mut current = Presentation::from_slides(vec![text_slide(&["a", "b"]), text_slide(&["c"])]);
    current.go_to_slide(1);
    let changed = Presentation::from_slides(vec![text_slide(&["a", "x"]), text_slide(&["c"])]);
    let reloaded = reload_position(&current, changed, PresentMode::Development, false).expect("no reload");
    assert_eq!(position(&reloaded), (0, 1));
}

#[test]
fn reload_without_changes_stays_in_place() {
    let mut current = Presentation::from_slides(vec![text_slide(&["a", "b"]), text_slide(&["c", "d"])]);
    current.go_to_slide(1);
    current.jump_chunk(1);
    let same = Presentation::from_slides(vec![text_slide(&["a", "b"]), text_slide(&["c", "d"])]);
    let reloaded = reload_position(&current, same, PresentMode::Development, false).expect("no reload");
    assert_eq!(position(&reloaded), (1, 1));
}

#[test]
fn no_reload_while_presenting_unless_forced() {
    let current = Presentation::from_slides(vec![text_slide(&["a"])]);
    let new = Presentation::from_slides(vec![text_slide(&["b"])]);
    assert!(reload_position(&current, new, PresentMode::Presentation, false).is_none());
    let new = Presentation::from_slides(vec![text_slide(&["b"])]);
    assert!(reload_position(&current, new, PresentMode::Presentation, true).is_some());
}
