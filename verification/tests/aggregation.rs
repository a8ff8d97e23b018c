use code_collector::aggregate::{Aggregator, Disposition, FileRead};
use code_collector::filter::FilterConfig;

fn strings(items: &[&str]) -> Vec<String> {
    items.iter().map(|s| s.to_string()).collect()
}

fn text(content: &str) -> FileRead {
    FileRead::Bytes(content.as_bytes().to_vec())
}

#[test]
fn a_new_aggregator_is_empty() {
    let aggregator = Aggregator::new(FilterConfig::new(vec![], vec![]), "/");
    assert_eq!(aggregator.buffer_text(), "");
    assert!(aggregator.included_files().is_empty());
}

#[test]
fn a_text_file_adds_one_block() {
    let mut aggregator = Aggregator::new(FilterConfig::new(vec![], vec![]), "/");
    let disposition = aggregator.absorb(strings(&["src", "main.rs"]), text("fn main() {}\n"));
    assert_eq!(disposition, Disposition::Included);
    assert_eq!(aggregator.buffer_text(), "// src/main.rs\nfn main() {}\n\n\n");
    assert_eq!(aggregator.included_files(), &vec![strings(&["src", "main.rs"])]);
}

#[test]
fn blocks_follow_each_other_in_traversal_order() {
    let mut aggregator = Aggregator::new(FilterConfig::new(vec![], vec![]), "/");
    aggregator.absorb(strings(&["z.py"]), text("z = 1"));
    aggregator.absorb(strings(&["a", "index.html"]), text("<p></p>"));
    aggregator.absorb(strings(&["m.css"]), text("p {}"));
    assert_eq!(
        aggregator.buffer_text(),
        "# z.py\nz = 1\n\n<!-- a/index.html\n-->\n<p></p>\n\n/* m.css\n*/\np {}\n\n"
    );
    assert_eq!(
        aggregator.included_files(),
        &vec![strings(&["z.py"]), strings(&["a", "index.html"]), strings(&["m.css"])]
    );
}

#[test]
fn the_header_follows_the_lowercase_extension() {
    let mut aggregator = Aggregator::new(FilterConfig::new(vec![], vec![]), "/");
    aggregator.absorb(strings(&["RUN.SH"]), text("echo"));
    assert_eq!(aggregator.buffer_text(), "# RUN.SH\necho\n\n");
}

#[test]
fn content_is_taken_as_it_is() {
    let mut aggregator = Aggregator::new(FilterConfig::new(vec![], vec![]), "/");
    aggregator.absorb(strings(&["w.txt"]), text("a\r\nb\r\n\n\nc\tü"));
    assert_eq!(aggregator.buffer_text(), "// w.txt\na\r\nb\r\n\n\nc\tü\n\n");
}

#[test]
fn an_empty_file_still_gets_its_block() {
    let mut aggregator = Aggregator::new(FilterConfig::new(vec![], vec![]), "/");
    assert_eq!(aggregator.absorb(strings(&["empty.py"]), text("")), Disposition::Included);
    assert_eq!(aggregator.buffer_text(), "# empty.py\n\n\n");
}

#[test]
fn the_separator_is_the_one_given() {
    let mut aggregator = Aggregator::new(FilterConfig::new(vec![], vec![]), "\\");
    aggregator.absorb(strings(&["a", "b", "c.go"]), text("x"));
    assert_eq!(aggregator.buffer_text(), "// a\\b\\c.go\nx\n\n");
}

#[test]
fn binary_content_is_skipped() {
    let mut aggregator = Aggregator::new(FilterConfig::new(vec![], vec![]), "/");
    aggregator.absorb(strings(&["a.py"]), text("a"));
    let disposition =
        aggregator.absorb(strings(&["image.png"]), FileRead::Bytes(vec![0x89, 0x50, 0xff, 0xfe]));
    assert_eq!(disposition, Disposition::SkippedBinary);
    assert_eq!(aggregator.buffer_text(), "# a.py\na\n\n");
    assert_eq!(aggregator.included_files(), &vec![strings(&["a.py"])]);
}

#[test]
fn truncated_utf8_is_binary() {
    let mut aggregator = Aggregator::new(FilterConfig::new(vec![], vec![]), "/");
    let disposition = aggregator.absorb(strings(&["cut.txt"]), FileRead::Bytes(vec![b'a', 0xc3]));
    assert_eq!(disposition, Disposition::SkippedBinary);
    assert_eq!(aggregator.buffer_text(), "");
}

#[test]
fn multibyte_text_is_decoded() {
    let mut aggregator = Aggregator::new(FilterConfig::new(vec![], vec![]), "/");
    let bytes = vec![0xe6, 0x97, 0xa5, 0xe6, 0x9c, 0xac, b'!'];
    assert_eq!(
        aggregator.absorb(strings(&["j.txt"]), FileRead::Bytes(bytes)),
        Disposition::Included
    );
    assert_eq!(aggregator.buffer_text(), "// j.txt\n日本!\n\n");
}

#[test]
fn an_unreadable_file_is_passed_over_with_its_cause() {
    let mut aggregator = Aggregator::new(FilterConfig::new(vec![], vec![]), "/");
    let disposition =
        aggregator.absorb(strings(&["locked.rs"]), FileRead::Failed("permission denied".into()));
    assert_eq!(disposition, Disposition::Unreadable("permission denied".to_string()));
    assert_eq!(aggregator.buffer_text(), "");
    assert!(aggregator.included_files().is_empty());
}

#[test]
fn a_file_that_the_policy_rejects_is_filtered() {
    let config = FilterConfig::new(strings(&["py"]), vec![]);
    let mut aggregator = Aggregator::new(config, "/");
    assert!(aggregator.wants(&strings(&["a.py"])));
    assert!(!aggregator.wants(&strings(&["b.txt"])));
    assert!(!aggregator.wants(&strings(&["node_modules", "d.py"])));
    assert_eq!(aggregator.absorb(strings(&["b.txt"]), text("b")), Disposition::Filtered);
    assert_eq!(
        aggregator.absorb(strings(&["node_modules", "d.py"]), text("d")),
        Disposition::Filtered
    );
    assert_eq!(
        aggregator.absorb(strings(&["build", "x.py"]), FileRead::Failed("gone".into())),
        Disposition::Filtered
    );
    assert_eq!(aggregator.buffer_text(), "");
    assert!(aggregator.included_files().is_empty());
}

#[test]
fn into_parts_hands_out_buffer_and_files() {
    let mut aggregator = Aggregator::new(FilterConfig::new(vec![], vec![]), "/");
    aggregator.absorb(strings(&["a.rb"]), text("puts 1"));
    let (buffer, files) = aggregator.into_parts();
    assert_eq!(buffer, "# a.rb\nputs 1\n\n");
    assert_eq!(files, vec![strings(&["a.rb"])]);
}

#[test]
fn skipped_and_unreadable_files_have_one_notice_each() {
    assert_eq!(
        Disposition::SkippedBinary.notice("\"dir/image.png\""),
        Some("Skipping binary file \"dir/image.png\"".to_string())
    );
    assert_eq!(
        Disposition::Unreadable("permission denied".to_string()).notice("\"dir/locked.rs\""),
        Some("Could not read file \"dir/locked.rs\": permission denied".to_string())
    );
}

#[test]
fn included_and_filtered_files_have_no_notice() {
    assert_eq!(Disposition::Included.notice("a.py"), None);
    assert_eq!(Disposition::Filtered.notice("a.py"), None);
}
