use presenterm::printer::{ImagePrinter, ImageRegistry, ItermMode, ItermPrinter};
use presenterm::query::{parse_response, KittyImageIds};
use presenterm::terminal::{GraphicsMode, KittyMode, TerminalCapabilities, TerminalEmulator, TerminalEnv};
use std::sync::Arc;

fn env(term: &str, program: &str) -> TerminalEnv {
    TerminalEnv {
        term: term.to_string(),
        term_program: program.to_string(),
        lc_terminal: None,
        wezterm_executable: false,
        konsole_version: false,
    }
}

#[test]
fn detects_emulators() {
    assert_eq!(TerminalEmulator::detect(&env("xterm-256color", "iTerm.app")), TerminalEmulator::Iterm2);
    assert_eq!(TerminalEmulator::detect(&env("xterm-kitty", "")), TerminalEmulator::Kitty);
    assert_eq!(TerminalEmulator::detect(&env("foot", "")), TerminalEmulator::Foot);
    assert_eq!(TerminalEmulator::detect(&env("xterm-256color", "")), TerminalEmulator::Xterm);
    assert_eq!(TerminalEmulator::detect(&env("dumb", "")), TerminalEmulator::Unknown);
    let mut over_ssh = env("xterm-256color", "");
    over_ssh.lc_terminal = Some("iTerm2".to_string());
    assert_eq!(TerminalEmulator::detect(&over_ssh), TerminalEmulator::Iterm2);
    let mut konsole = env("xterm-256color", "");
    konsole.konsole_version = true;
    assert_eq!(TerminalEmulator::detect(&konsole), TerminalEmulator::Konsole);
}

#[test]
fn preferred_protocols() {
    let none = TerminalCapabilities::default();
    assert_eq!(TerminalEmulator::Iterm2.preferred_protocol(&none), GraphicsMode::Iterm2);
    assert_eq!(TerminalEmulator::Foot.preferred_protocol(&none), GraphicsMode::Sixel);
    assert_eq!(TerminalEmulator::Xterm.preferred_protocol(&none), GraphicsMode::AsciiBlocks);
    let kitty = TerminalCapabilities { kitty_local: true, kitty_remote: true, ..TerminalCapabilities::default() };
    assert_eq!(
        TerminalEmulator::Kitty.preferred_protocol(&kitty),
        GraphicsMode::Kitty { mode: KittyMode::Local }
    );
    let remote = TerminalCapabilities { kitty_remote: true, sixel: true, ..TerminalCapabilities::default() };
    assert_eq!(
        TerminalEmulator::Unknown.preferred_protocol(&remote),
        GraphicsMode::Kitty { mode: KittyMode::Remote }
    );
    let sixel = TerminalCapabilities { sixel: true, ..TerminalCapabilities::default() };
    assert_eq!(TerminalEmulator::Xterm.preferred_protocol(&sixel), GraphicsMode::Sixel);
    assert_eq!(TerminalEmulator::Ghostty.preferred_protocol(&sixel), GraphicsMode::AsciiBlocks);
}

fn detect(input: &str) -> (bool, bool, bool) {
    let (capabilities, done) = parse_response(input.as_bytes(), KittyImageIds { local: 42, remote: 43 });
    assert!(done);
    (capabilities.kitty_local, capabilities.kitty_remote, capabilities.sixel)
}

#[test]
fn capability_detection() {
    assert_eq!(detect("\x1b_Gi=42;OK\x1b\\\x1b[?c"), (true, false, false));
    assert_eq!(detect("\x1b_Gi=43;OK\x1b\\\x1b[?c"), (false, true, false));
    assert_eq!(detect("\x1b_Gi=42;OK\x1b\\\x1b_Gi=43;OK\x1b\\\x1b[?c"), (true, true, false));
    assert_eq!(detect("\x1b_Gi=43;OK\x1b\\\x1b_Gi=42;OK\x1b\\\x1b[?c"), (true, true, false));
    assert_eq!(detect("\x1b_Gi=42;OK\x1b\\\x1b_Gi=43;OK\x1b\\\x1b[?4c"), (true, true, true));
    assert_eq!(detect("\x1b[?c"), (false, false, false));
    assert_eq!(detect("\x1b[?4c"), (false, false, true));
    assert_eq!(detect("\x1b[?4;42c"), (false, false, true));
    assert_eq!(detect("\x1b[?1337;4;42c"), (false, false, true));
    assert_eq!(detect("\x1b[?1337;42c"), (false, false, false));
}

#[test]
fn status_report_ends_detection() {
    let (capabilities, done) = parse_response(b"\x1b[0n\x1b[?4c", KittyImageIds { local: 1, remote: 2 });
    assert!(done);
    assert!(!capabilities.sixel);
}

#[test]
fn unfinished_answer() {
    let (capabilities, done) = parse_response(b"\x1b_Gi=1;OK\x1b\\\x1b[?4", KittyImageIds { local: 1, remote: 2 });
    assert!(!done);
    assert!(capabilities.kitty_local);
    assert!(!capabilities.sixel);
}

#[test]
fn failed_kitty_answer() {
    let (capabilities, _) = parse_response(b"\x1b_Gi=42;ENOENT\x1b\\\x1b[?c", KittyImageIds { local: 42, remote: 43 });
    assert!(!capabilities.kitty_local);
}

#[test]
fn printers() {
    assert_eq!(
        ImagePrinter::new(GraphicsMode::Iterm2Multipart, true).unwrap(),
        ImagePrinter::Iterm(ItermPrinter::new(ItermMode::Multipart, true))
    );
    assert_eq!(ImagePrinter::new(GraphicsMode::AsciiBlocks, false).unwrap().name(), "Ascii");
    assert_eq!(ImagePrinter::default().name(), "Ascii");
    assert!(!ImagePrinter::Null.can_register());
    let registry = ImageRegistry::new(Arc::new(ImagePrinter::new(GraphicsMode::Sixel, false).unwrap()));
    assert_eq!(registry.printer.name(), "Sixel");
}
