use code_collector::comment::{format_block, get_comment_syntax, CommentStyle};

#[test]
fn rust_files_use_double_slash() {
    assert_eq!(get_comment_syntax("rs"), CommentStyle::Line("//"));
}

#[test]
fn python_files_use_hash() {
    assert_eq!(get_comment_syntax("py"), CommentStyle::Line("#"));
}

#[test]
fn markup_uses_block_comments() {
    assert_eq!(get_comment_syntax("html"), CommentStyle::Block("<!--", "-->"));
    assert_eq!(get_comment_syntax("xml"), CommentStyle::Block("<!--", "-->"));
    assert_eq!(get_comment_syntax("xhtml"), CommentStyle::Block("<!--", "-->"));
}

#[test]
fn stylesheets_use_c_block_comments() {
    assert_eq!(get_comment_syntax("css"), CommentStyle::Block("/*", "*/"));
}

#[test]
fn unknown_extensions_fall_back_to_double_slash() {
    assert_eq!(get_comment_syntax("zig"), CommentStyle::Line("//"));
    assert_eq!(get_comment_syntax(""), CommentStyle::Line("//"));
}

#[test]
fn lookup_is_case_sensitive() {
    assert_eq!(get_comment_syntax("PY"), CommentStyle::Line("//"));
    assert_eq!(get_comment_syntax("Html"), CommentStyle::Line("//"));
}

#[test]
fn line_block_has_one_header_line() {
    let block = format_block(CommentStyle::Line("#"), "sub/c.py", "print(1)\n");
    assert_eq!(block, "# sub/c.py\nprint(1)\n\n\n");
}

#[test]
fn block_style_has_two_header_lines() {
    let block = format_block(CommentStyle::Block("<!--", "-->"), "index.html", "<p>hi</p>");
    assert_eq!(block, "<!-- index.html\n-->\n<p>hi</p>\n\n");
}
