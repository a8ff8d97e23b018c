use code_collector::text::{comes_before, holds_name, same_text, spells, to_chars};

#[test]
fn characters_come_out_in_order() {
    assert_eq!(to_chars("héllo"), vec!['h', 'é', 'l', 'l', 'o']);
    assert_eq!(to_chars(""), Vec::<char>::new());
}

#[test]
fn spelling_is_exact() {
    let chars = to_chars("yaml");
    assert!(spells(&chars, "yaml"));
    assert!(!spells(&chars, "yml"));
    assert!(!spells(&chars, "yam"));
    assert!(!spells(&chars, "yamll"));
    assert!(!spells(&chars, "Yaml"));
    assert!(spells(&to_chars(""), ""));
    assert!(!spells(&to_chars(""), "a"));
}

#[test]
fn same_text_compares_every_character() {
    assert!(same_text("target", "target"));
    assert!(!same_text("target", "targets"));
    assert!(!same_text("targets", "target"));
    assert!(!same_text("target", "tarjet"));
    assert!(same_text("", ""));
}

#[test]
fn order_is_lexicographic_by_character() {
    assert!(comes_before("a", "b"));
    assert!(!comes_before("b", "a"));
    assert!(comes_before("a.py", "sub"));
    assert!(comes_before("Zebra", "apple"));
    assert!(comes_before("a10", "a2"));
    assert!(!comes_before("same", "same"));
}

#[test]
fn a_prefix_comes_before_its_extensions() {
    assert!(comes_before("", "a"));
    assert!(comes_before("sub", "subdir"));
    assert!(!comes_before("subdir", "sub"));
    assert!(!comes_before("", ""));
}

#[test]
fn order_agrees_with_string_comparison() {
    let words = ["", "a", "A", "ab", "b", "é", "e", "z", "日本", "a.py", "a_py", "~"];
    for x in words {
        for y in words {
            assert_eq!(comes_before(x, y), x < y, "{:?} against {:?}", x, y);
        }
    }
}

#[test]
fn holds_name_looks_through_the_whole_list() {
    let list: Vec<String> = vec!["a".to_string(), "bc".to_string(), "d".to_string()];
    assert!(holds_name(&list, "a"));
    assert!(holds_name(&list, "bc"));
    assert!(holds_name(&list, "d"));
    assert!(!holds_name(&list, "b"));
    assert!(!holds_name(&list, ""));
    assert!(!holds_name(&vec![], "a"));
}
