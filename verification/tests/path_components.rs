use code_collector::paths::{join_components, relative_to};

fn strings(items: &[&str]) -> Vec<String> {
    items.iter().map(|s| s.to_string()).collect()
}

#[test]
fn joining_puts_the_separator_between_components() {
    assert_eq!(join_components(&strings(&["sub", "dir", "c.py"]), "/"), "sub/dir/c.py");
    assert_eq!(join_components(&strings(&["sub", "c.py"]), "\\"), "sub\\c.py");
}

#[test]
fn joining_one_component_adds_nothing() {
    assert_eq!(join_components(&strings(&["a.py"]), "/"), "a.py");
}

#[test]
fn joining_nothing_gives_the_empty_text() {
    assert_eq!(join_components(&vec![], "/"), "");
}

#[test]
fn relative_path_drops_the_root() {
    let root = strings(&["home", "me", "project"]);
    let path = strings(&["home", "me", "project", "src", "main.rs"]);
    assert_eq!(relative_to(&root, &path), Some(strings(&["src", "main.rs"])));
}

#[test]
fn the_root_itself_has_the_empty_relative_path() {
    let root = strings(&["project"]);
    assert_eq!(relative_to(&root, &root), Some(vec![]));
}

#[test]
fn an_empty_root_leaves_the_path_as_it_is() {
    let path = strings(&["a", "b"]);
    assert_eq!(relative_to(&vec![], &path), Some(path.clone()));
}

#[test]
fn a_path_outside_the_root_has_no_relative_path() {
    let root = strings(&["home", "me", "project"]);
    assert_eq!(relative_to(&root, &strings(&["home", "you", "project", "a.rs"])), None);
    assert_eq!(relative_to(&root, &strings(&["home", "me"])), None);
    assert_eq!(relative_to(&root, &strings(&["home", "me", "projects", "a.rs"])), None);
}
