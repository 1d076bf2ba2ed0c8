use presenterm::hyperlinks::{hyperlinks_supported, parse_force_hyperlink, HyperlinkEnv};

fn env(vars: &[(&str, &str)]) -> HyperlinkEnv {
    let lookup = |name: &str| vars.iter().find(|(key, _)| *key == name).map(|(_, value)| value.to_string());
    HyperlinkEnv {
        force_hyperlink: lookup("FORCE_HYPERLINK"),
        tmux: lookup("TMUX"),
        term: lookup("TERM"),
        term_program: lookup("TERM_PROGRAM"),
        lc_terminal: lookup("LC_TERMINAL"),
        vte_version: lookup("VTE_VERSION"),
        konsole_version: lookup("KONSOLE_VERSION"),
        wt_session: lookup("WT_SESSION"),
        domterm: lookup("DOMTERM"),
        terminal_emulator: lookup("TERMINAL_EMULATOR"),
    }
}

#[test]
fn hyperlink_detection() {
    let cases: &[(&[(&str, &str)], bool)] = &[
        (&[], false),
        (&[("TERM", "xterm-256color")], false),
        (&[("TERM_PROGRAM", "iTerm.app")], true),
        (&[("TERM", "xterm-256color"), ("LC_TERMINAL", "iTerm2")], true),
        (&[("TERM", "xterm-kitty")], true),
        (&[("TERM", "alacritty")], true),
        (&[("TERM_PROGRAM", "WezTerm")], true),
        (&[("TERM", "xterm-ghostty"), ("TERM_PROGRAM", "ghostty")], true),
        (&[("TERM", "xterm-256color"), ("VTE_VERSION", "7802")], true),
        (&[("TERM", "xterm-256color"), ("VTE_VERSION", "4999")], false),
        (&[("KONSOLE_VERSION", "230800")], true),
        (&[("WT_SESSION", "some-guid")], true),
        (&[("TERMINAL_EMULATOR", "JetBrains-JediTerm")], true),
        (&[("TMUX", "/tmp/tmux-1/default,42,0"), ("TERM_PROGRAM", "tmux"), ("VTE_VERSION", "7802")], false),
        (&[("TERM", "screen-256color"), ("LC_TERMINAL", "iTerm2")], false),
        (&[("TERM", "tmux-256color"), ("LC_TERMINAL", "iTerm2")], false),
        (&[("FORCE_HYPERLINK", "1"), ("TERM", "xterm-256color")], true),
        (&[("FORCE_HYPERLINK", "1"), ("TMUX", "/tmp/tmux-1/default,42,0")], true),
        (&[("FORCE_HYPERLINK", "0"), ("TERM_PROGRAM", "iTerm.app")], false),
        (&[("FORCE_HYPERLINK", "false"), ("TERM_PROGRAM", "iTerm.app")], false),
        (&[("FORCE_HYPERLINK", "No"), ("TERM_PROGRAM", "iTerm.app")], false),
        (&[("FORCE_HYPERLINK", "off"), ("TERM_PROGRAM", "iTerm.app")], false),
    ];
    for (vars, expected) in cases {
        assert_eq!(hyperlinks_supported(&env(vars)), *expected, "{vars:?}");
    }
}

#[test]
fn forcing_hyperlinks() {
    assert_eq!(parse_force_hyperlink(&None), None);
    assert_eq!(parse_force_hyperlink(&Some("  OFF ".to_string())), Some(false));
    assert_eq!(parse_force_hyperlink(&Some("".to_string())), Some(false));
    assert_eq!(parse_force_hyperlink(&Some("yes".to_string())), Some(true));
    assert_eq!(parse_force_hyperlink(&Some("False".to_string())), Some(false));
}

#[test]
fn vte_versions_are_numbers() {
    assert!(hyperlinks_supported(&env(&[("VTE_VERSION", "+5000")])));
    assert!(!hyperlinks_supported(&env(&[("VTE_VERSION", "5000a")])));
    assert!(!hyperlinks_supported(&env(&[("VTE_VERSION", "99999999999")])));
    assert!(!hyperlinks_supported(&env(&[("VTE_VERSION", "+")])));
}
