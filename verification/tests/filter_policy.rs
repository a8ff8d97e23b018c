use code_collector::filter::{
    default_excluded_dirs, file_extension, is_hidden_name, lowercase_extension, Decision,
    FilterConfig, WalkEntry,
};

fn strings(items: &[&str]) -> Vec<String> {
    items.iter().map(|s| s.to_string()).collect()
}

#[test]
fn extension_is_what_follows_the_last_dot() {
    assert_eq!(file_extension("main.rs"), "rs");
    assert_eq!(file_extension("archive.tar.gz"), "gz");
    assert_eq!(file_extension("a.b.c.d"), "d");
}

#[test]
fn names_without_a_dot_have_no_extension() {
    assert_eq!(file_extension("Makefile"), "");
    assert_eq!(file_extension(""), "");
}

#[test]
fn a_leading_dot_alone_makes_no_extension() {
    assert_eq!(file_extension(".gitignore"), "");
    assert_eq!(file_extension(".config.toml"), "toml");
}

#[test]
fn a_trailing_dot_gives_an_empty_extension() {
    assert_eq!(file_extension("notes."), "");
}

#[test]
fn extension_agrees_with_the_standard_library() {
    for name in ["a.py", "b", ".c", "d.", "e.f.g", "..h", "i..j", "ünï.cödé", "x.R"] {
        let expected = std::path::Path::new(name)
            .extension()
            .and_then(|s| s.to_str())
            .unwrap_or("");
        assert_eq!(file_extension(name), expected, "for {:?}", name);
    }
}

#[test]
fn extension_is_lowercased_for_filtering() {
    assert_eq!(lowercase_extension("SCRIPT.PY"), "py");
    assert_eq!(lowercase_extension("Page.Html"), "html");
    assert_eq!(lowercase_extension("plain"), "");
}

#[test]
fn hidden_names_begin_with_a_dot() {
    assert!(is_hidden_name(".git"));
    assert!(is_hidden_name(".env"));
    assert!(!is_hidden_name("src"));
    assert!(!is_hidden_name("a.b"));
    assert!(!is_hidden_name(""));
}

#[test]
fn built_in_exclusions_are_the_eight_names() {
    assert_eq!(
        default_excluded_dirs(),
        strings(&["node_modules", "target", "build", "dist", "venv", "env", ".venv", ".env"])
    );
}

#[test]
fn new_lowercases_extensions_and_merges_exclusions() {
    let config = FilterConfig::new(strings(&["PY", "Rs"]), strings(&["vendor"]));
    assert_eq!(config.extensions(), &strings(&["py", "rs"]));
    assert_eq!(
        config.excluded_dir_names(),
        &strings(&[
            "node_modules",
            "target",
            "build",
            "dist",
            "venv",
            "env",
            ".venv",
            ".env",
            "vendor"
        ])
    );
}

#[test]
fn an_empty_allow_list_restricts_nothing() {
    let config = FilterConfig::new(vec![], vec![]);
    assert!(config.allows_extension("py"));
    assert!(config.allows_extension(""));
    assert!(config.allows_extension("anything"));
}

#[test]
fn a_configured_allow_list_is_matched_exactly() {
    let config = FilterConfig::new(strings(&["py", "rs"]), vec![]);
    assert!(config.allows_extension("py"));
    assert!(config.allows_extension("rs"));
    assert!(!config.allows_extension("p"));
    assert!(!config.allows_extension("pyc"));
    assert!(!config.allows_extension("PY"));
    assert!(!config.allows_extension(""));
}

#[test]
fn excluded_directories_are_pruned_by_name() {
    let config = FilterConfig::new(vec![], strings(&["vendor"]));
    assert!(config.prunes("node_modules", true));
    assert!(config.prunes("target", true));
    assert!(config.prunes("vendor", true));
    assert!(!config.prunes("src", true));
    assert!(!config.prunes("Target", true));
    assert!(!config.prunes("targets", true));
}

#[test]
fn files_are_never_pruned() {
    let config = FilterConfig::new(vec![], vec![]);
    assert!(!config.prunes("target", false));
    assert!(!config.prunes("build", false));
}

#[test]
fn admits_requires_every_check_to_pass() {
    let config = FilterConfig::new(strings(&["py"]), vec![]);
    assert!(config.admits(&strings(&["a.py"])));
    assert!(config.admits(&strings(&["sub", "c.py"])));
    assert!(config.admits(&strings(&["sub", "C.PY"])));
    assert!(!config.admits(&strings(&["b.txt"])));
    assert!(!config.admits(&strings(&["node_modules", "d.py"])));
    assert!(!config.admits(&strings(&["x", "y", "target", "z", "d.py"])));
    assert!(!config.admits(&strings(&[".hidden", "d.py"])));
    assert!(!config.admits(&strings(&["sub", ".d.py"])));
    assert!(!config.admits(&vec![]));
}

#[test]
fn a_file_may_carry_an_excluded_name() {
    let config = FilterConfig::new(vec![], vec![]);
    assert!(config.admits(&strings(&["src", "build"])));
    assert!(config.admits(&strings(&["target"])));
}

#[test]
fn user_exclusions_apply_at_any_depth() {
    let config = FilterConfig::new(vec![], strings(&["generated"]));
    assert!(!config.admits(&strings(&["generated", "a.rs"])));
    assert!(!config.admits(&strings(&["a", "b", "generated", "c", "a.rs"])));
    assert!(config.admits(&strings(&["a", "b", "a.rs"])));
}

#[test]
fn decide_tells_directories_from_files() {
    let config = FilterConfig::new(strings(&["py"]), vec![]);
    let entry = |parts: &[&str], is_dir: bool| WalkEntry { components: strings(parts), is_dir };
    assert_eq!(config.decide(&entry(&["src"], true)), Decision::Descend);
    assert_eq!(config.decide(&entry(&["src", "pkg"], true)), Decision::Descend);
    assert_eq!(config.decide(&entry(&["node_modules"], true)), Decision::Prune);
    assert_eq!(config.decide(&entry(&["src", "dist"], true)), Decision::Prune);
    assert_eq!(config.decide(&entry(&["dist", "src"], true)), Decision::Prune);
    assert_eq!(config.decide(&entry(&[".git"], true)), Decision::Prune);
    assert_eq!(config.decide(&entry(&[], true)), Decision::Descend);
    assert_eq!(config.decide(&entry(&[], false)), Decision::Skip);
    assert_eq!(config.decide(&entry(&["src", ".cache"], true)), Decision::Prune);
    assert_eq!(config.decide(&entry(&["py"], true)), Decision::Descend);
    assert_eq!(config.decide(&entry(&["src", "a.py"], false)), Decision::Collect);
    assert_eq!(config.decide(&entry(&["src", "a.rs"], false)), Decision::Skip);
    assert_eq!(config.decide(&entry(&["env", "a.py"], false)), Decision::Skip);
}
