use presenterm::query::{escape, kitty_query};

#[test]
fn escape_outside_tmux_is_the_sequence() {
    assert_eq!(escape("\x1b[c", false), "\x1b[c");
}

#[test]
fn escape_inside_tmux_doubles_escapes() {
    assert_eq!(escape("\x1b[c", true), "\x1bPtmux;\x1b\x1b[c\x1b\\");
}

#[test]
fn kitty_query_text() {
    assert_eq!(kitty_query(42, 'd', "AAAA", false), "\x1b_Gi=42,s=1,v=1,a=q,t=d,f=32;AAAA\x1b\\");
    assert_eq!(
        kitty_query(7, 'f', "x", true),
        "\x1bPtmux;\x1b\x1b_Gi=7,s=1,v=1,a=q,t=f,f=32;x\x1b\x1b\\\x1b\\"
    );
}
