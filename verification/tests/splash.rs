use presenterm::splash::show_splashes;

#[test]
fn splash_holds_the_version() {
    let splash = show_splashes("1.2.3");
    assert!(splash.contains("v1.2.3\n"));
    assert!(splash.starts_with("\n  ┌─┐"));
    assert!(splash.ends_with("@mfontanini/presenterm\n"));
    assert!(splash.contains("A terminal slideshow tool"));
}
