use code_collector::driver::build_tree;
use code_collector::tree::TreeNode;

fn strings(items: &[&str]) -> Vec<String> {
    items.iter().map(|s| s.to_string()).collect()
}

fn tree(files: &[&[&str]]) -> TreeNode {
    let mut root = TreeNode::new(String::new());
    for file in files {
        root.add_path(&strings(file));
    }
    root
}

#[test]
fn an_empty_root_renders_nothing() {
    let root = TreeNode::new(String::new());
    assert!(root.render("", true).is_empty());
    assert!(root.render_children("").is_empty());
}

#[test]
fn a_named_leaf_renders_its_own_line() {
    let node = TreeNode::new("main.rs".to_string());
    assert_eq!(node.render("", true), vec!["└── main.rs"]);
    assert_eq!(node.render("", false), vec!["├── main.rs"]);
    assert_eq!(node.render("│   ", false), vec!["│   ├── main.rs"]);
}

#[test]
fn adding_the_empty_path_changes_nothing() {
    let mut root = tree(&[&["a.py"]]);
    root.add_path(&[]);
    assert_eq!(root.render_children(""), vec!["└── a.py"]);
}

#[test]
fn children_of_the_root_are_rendered_in_order() {
    let root = tree(&[&["a.py"], &["sub", "c.py"]]);
    assert_eq!(root.render_children(""), vec!["├── a.py", "└── sub", "    └── c.py"]);
}

#[test]
fn render_of_the_root_extends_the_prefix_once() {
    let root = tree(&[&["a.py"], &["sub", "c.py"]]);
    assert_eq!(
        root.render("", true),
        vec!["    ├── a.py", "    └── sub", "        └── c.py"]
    );
    assert_eq!(
        root.render("", false),
        vec!["│   ├── a.py", "│   └── sub", "│       └── c.py"]
    );
}

#[test]
fn a_named_node_shows_itself_above_its_children() {
    let mut node = TreeNode::new("src".to_string());
    node.add_path(&strings(&["lib.rs"]));
    node.add_path(&strings(&["bin", "main.rs"]));
    assert_eq!(
        node.render(">", false),
        vec![">├── src", ">│   ├── bin", ">│   │   └── main.rs", ">│   └── lib.rs"]
    );
}

#[test]
fn siblings_are_sorted_by_name() {
    let root = tree(&[&["zeta"], &["alpha"], &["Mid"], &["beta"], &["alpha2"]]);
    assert_eq!(
        root.render_children(""),
        vec!["├── Mid", "├── alpha", "├── alpha2", "├── beta", "└── zeta"]
    );
}

#[test]
fn shared_directories_are_shown_once() {
    let root = tree(&[&["src", "b.rs"], &["src", "a.rs"], &["src", "deep", "c.rs"], &["src", "a.rs"]]);
    assert_eq!(
        root.render_children(""),
        vec!["└── src", "    ├── a.rs", "    ├── b.rs", "    └── deep", "        └── c.rs"]
    );
}

#[test]
fn continuation_bars_run_beside_later_siblings() {
    let root = tree(&[&["a", "x", "1"], &["a", "y"], &["b"]]);
    assert_eq!(
        root.render_children(""),
        vec!["├── a", "│   ├── x", "│   │   └── 1", "│   └── y", "└── b"]
    );
}

#[test]
fn rendering_does_not_depend_on_insertion_order() {
    let files: [&[&str]; 5] =
        [&["src", "main.rs"], &["README.md"], &["src", "util", "io.rs"], &["docs", "a.md"], &["src", "lib.rs"]];
    let expected = tree(&files).render_children("");
    let orders: [[usize; 5]; 5] =
        [[4, 3, 2, 1, 0], [1, 0, 3, 2, 4], [2, 4, 0, 1, 3], [3, 1, 4, 0, 2], [0, 2, 4, 1, 3]];
    for order in orders {
        let shuffled: Vec<&[&str]> = order.iter().map(|&i| files[i]).collect();
        assert_eq!(tree(&shuffled).render_children(""), expected);
        assert_eq!(tree(&shuffled).render("", true), tree(&files).render("", true));
    }
    assert_eq!(
        expected,
        vec![
            "├── README.md",
            "├── docs",
            "│   └── a.md",
            "└── src",
            "    ├── lib.rs",
            "    ├── main.rs",
            "    └── util",
            "        └── io.rs"
        ]
    );
}

#[test]
fn a_path_may_end_where_another_goes_on() {
    let root = tree(&[&["a", "b"], &["a"], &["a", "b", "c"]]);
    assert_eq!(root.render_children(""), vec!["└── a", "    └── b", "        └── c"]);
}

#[test]
fn build_tree_puts_every_file_in() {
    let files = vec![strings(&["sub", "c.py"]), strings(&["a.py"])];
    let root = build_tree(&files);
    assert_eq!(root.render_children(""), vec!["├── a.py", "└── sub", "    └── c.py"]);
    assert!(build_tree(&vec![]).render_children("").is_empty());
}
