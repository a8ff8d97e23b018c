use code_collector::matcher::{
    build_type_matcher, matcher_outcome, prepare_builder, valid_type_name, ConfigError,
};

fn strings(items: &[&str]) -> Vec<String> {
    items.iter().map(|s| s.to_string()).collect()
}

#[test]
fn letters_and_numbers_make_a_type_name() {
    assert!(valid_type_name("py"));
    assert!(valid_type_name("rs"));
    assert!(valid_type_name("ps1"));
    assert!(valid_type_name("md2"));
    assert!(valid_type_name("größe"));
    assert!(valid_type_name(""));
}

#[test]
fn other_characters_make_no_type_name() {
    assert!(!valid_type_name("c++"));
    assert!(!valid_type_name("tar.gz"));
    assert!(!valid_type_name("a b"));
    assert!(!valid_type_name("*"));
    assert!(!valid_type_name("a_b"));
}

#[test]
fn all_is_no_type_name() {
    assert!(!valid_type_name("all"));
    assert!(valid_type_name("al"));
    assert!(valid_type_name("alll"));
    assert!(valid_type_name("ALL"));
}

#[test]
fn matcher_selects_one_type_for_each_extension() {
    let matcher = build_type_matcher(&strings(&["py", "rs"])).unwrap();
    assert_eq!(matcher.len(), 2);
    assert!(!matcher.is_empty());
    assert!(matcher.matched("a.py", false).is_whitelist());
    assert!(matcher.matched("dir/lib.rs", false).is_whitelist());
    assert!(matcher.matched("b.txt", false).is_ignore());
    assert!(matcher.matched("py", false).is_ignore());
}

#[test]
fn matcher_globs_are_star_dot_extension() {
    let builder = prepare_builder(&strings(&["py", "rs"])).unwrap();
    let definitions = builder.definitions();
    assert_eq!(definitions.len(), 2);
    assert_eq!(definitions[0].name(), "py");
    assert_eq!(definitions[0].globs(), &["*.py".to_string()]);
    assert_eq!(definitions[1].name(), "rs");
    assert_eq!(definitions[1].globs(), &["*.rs".to_string()]);
}

#[test]
fn no_extension_selects_nothing() {
    let matcher = build_type_matcher(&vec![]).unwrap();
    assert!(matcher.is_empty());
    assert_eq!(matcher.len(), 0);
    assert!(!matcher.definitions().is_empty());
    assert!(matcher.matched("a.py", false).is_none());
    assert!(matcher.matched("whatever.bin", false).is_none());
}

#[test]
fn the_first_invalid_extension_is_reported() {
    let outcome = build_type_matcher(&strings(&["py", "c++", "rs", "a.b"]));
    assert_eq!(outcome.err(), Some(ConfigError::InvalidExtension("c++".to_string())));
}

#[test]
fn all_is_reported_as_invalid() {
    let outcome = build_type_matcher(&strings(&["all"]));
    assert_eq!(outcome.err(), Some(ConfigError::InvalidExtension("all".to_string())));
    let prepared = prepare_builder(&strings(&["py", "all"]));
    assert_eq!(prepared.err(), Some(ConfigError::InvalidExtension("all".to_string())));
}

#[test]
fn a_repeated_extension_is_selected_twice() {
    let matcher = build_type_matcher(&strings(&["py", "py"])).unwrap();
    assert_eq!(matcher.len(), 2);
    assert!(matcher.matched("a.py", false).is_whitelist());
}

#[test]
fn a_built_matcher_is_handed_on() {
    let built = ignore::types::TypesBuilder::new().add_defaults().select("rust").build();
    let matcher = matcher_outcome(built).unwrap();
    assert_eq!(matcher.len(), 1);
    assert!(matcher.matched("main.rs", false).is_whitelist());
}

#[test]
fn a_failed_build_becomes_a_matcher_error() {
    let built = ignore::types::TypesBuilder::new().select("nothing").build();
    assert!(built.is_err());
    match matcher_outcome(built) {
        Err(ConfigError::Matcher(message)) => assert!(!message.is_empty()),
        other => panic!("unexpected outcome: {:?}", other.map(|_| ())),
    }
}

#[test]
fn a_repeated_extension_gets_its_glob_twice() {
    let builder = prepare_builder(&strings(&["py", "rs", "py"])).unwrap();
    let definitions = builder.definitions();
    assert_eq!(definitions.len(), 2);
    assert_eq!(definitions[0].name(), "py");
    assert_eq!(definitions[0].globs(), &["*.py".to_string(), "*.py".to_string()]);
    assert_eq!(definitions[1].name(), "rs");
    assert_eq!(definitions[1].globs(), &["*.rs".to_string()]);
}

#[test]
fn no_extension_prepares_the_built_in_definitions() {
    let builder = prepare_builder(&vec![]).unwrap();
    let mut defaults = ignore::types::TypesBuilder::new();
    defaults.add_defaults();
    assert_eq!(builder.definitions(), defaults.definitions());
    assert!(builder.definitions().iter().any(|d| d.name() == "rust"));
}

#[test]
fn a_matcher_is_made_whenever_the_extensions_are_valid() {
    for extensions in [vec![], strings(&["py"]), strings(&["rs", "toml", "md"]), strings(&[""])] {
        assert!(build_type_matcher(&extensions).is_ok());
    }
    for extensions in [strings(&["c++"]), strings(&["py", "all"]), strings(&["a-b"])] {
        assert!(matches!(
            build_type_matcher(&extensions),
            Err(ConfigError::InvalidExtension(_))
        ));
    }
}
