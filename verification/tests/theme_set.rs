use presenterm::theme_set::{theme_name_of, LoadThemeError, PresentationThemeSet};

fn set(builtin: &[&str]) -> PresentationThemeSet<u32> {
    PresentationThemeSet::new(builtin.iter().map(|s| s.to_string()).collect())
}

fn add(set: &mut PresentationThemeSet<u32>, name: &str, extends: Option<&str>, value: u32) {
    set.check_not_builtin(name).expect("duplicate");
    set.insert_custom(name, extends.map(ToString::to_string), value);
}

#[test]
fn theme_file_names() {
    assert_eq!(theme_name_of("dark.yaml").as_deref(), Some("dark"));
    assert_eq!(theme_name_of("a.yaml.yaml").as_deref(), Some("a"));
    assert_eq!(theme_name_of("notes.txt"), None);
    assert_eq!(theme_name_of("yaml"), None);
}

#[test]
fn duplicates_of_builtin_themes_are_refused() {
    let s = set(&["dark", "light"]);
    match s.check_not_builtin("dark") {
        Err(LoadThemeError::Duplicate(name)) => assert_eq!(name, "dark"),
        other => panic!("unexpected {other:?}"),
    }
    assert!(s.check_not_builtin("other").is_ok());
}

#[test]
fn theme_names_are_custom_sorted_then_builtin() {
    let mut s = set(&["dark", "light"]);
    add(&mut s, "zeta", None, 1);
    add(&mut s, "alpha", None, 2);
    add(&mut s, "mid", None, 3);
    add(&mut s, "alpha", None, 4);
    assert_eq!(s.theme_names(), vec!["alpha", "mid", "zeta", "dark", "light"]);
    assert_eq!(s.custom_theme("alpha"), Some(&4));
    assert_eq!(s.custom_theme("dark"), None);
}

#[test]
fn load_derive_chain() {
    let mut s = set(&["dark"]);
    add(&mut s, "new1", Some("dark"), 1);
    add(&mut s, "new2", Some("new1"), 2);
    add(&mut s, "new3", Some("new2"), 3);
    let plan = s.extension_plan().expect("plan failed");
    assert_eq!(plan.order, vec!["new1", "new2", "new3"]);
    assert!(plan.leftover.is_empty());
}

#[test]
fn invalid_derives() {
    let mut s = set(&["dark"]);
    add(&mut s, "new1", Some("foo"), 1);
    add(&mut s, "new2", Some("bar"), 1);
    match s.extension_plan() {
        Err(LoadThemeError::ExtendedThemeNotFound(name)) => assert_eq!(name, "bar"),
        other => panic!("unexpected {:?}", other.map(|p| p.order)),
    }
}

#[test]
fn load_derive_chain_loop() {
    let mut s = set(&["dark"]);
    add(&mut s, "A", Some("B"), 1);
    add(&mut s, "B", Some("A"), 2);
    add(&mut s, "C", Some("dark"), 3);
    let plan = s.extension_plan().expect("plan failed");
    assert_eq!(plan.order, vec!["C"]);
    assert_eq!(plan.leftover, vec!["A", "B"]);
}

#[test]
fn several_dependents_resolve_after_their_base() {
    let mut s = set(&[]);
    add(&mut s, "base", None, 1);
    add(&mut s, "a", Some("base"), 2);
    add(&mut s, "b", Some("base"), 3);
    add(&mut s, "c", Some("a"), 4);
    add(&mut s, "lone", None, 5);
    let plan = s.extension_plan().unwrap();
    // Ready themes are taken last first; a resolved theme's dependents come next.
    assert_eq!(plan.order, vec!["lone", "base", "b", "a", "c"]);
}

#[test]
fn listed_theme_names_are_the_ones_that_load() {
    let mut set: PresentationThemeSet<u8> = PresentationThemeSet::new(vec!["dark".to_string(), "light".to_string()]);
    set.insert_custom("zebra", None, 1);
    set.insert_custom("apple", None, 2);
    let names = set.theme_names();
    assert_eq!(names, vec!["apple", "zebra", "dark", "light"]);
    for name in &names {
        assert!(set.has_theme(name));
    }
    assert!(!set.has_theme("nope"));
}
