//! Header comments: which comment convention a file extension calls for, and
//! the annotated block that a collected file contributes to the buffer.
use vstd::prelude::*;
use vstd::string::StringExecFns;
use crate::text::{spells, to_chars};

verus! {

/// How a language writes a comment.
#[derive(Clone, Copy, Debug, PartialEq, Eq)]
pub enum CommentStyle {
    /// A comment that runs from the prefix to the end of the line.
    Line(&'static str),
    /// A comment enclosed between an opening and a closing marker.
    Block(&'static str, &'static str),
}

/// Extensions of the languages known to comment with `//`.
pub open spec fn comments_with_slashes(extension: Seq<char>) -> bool {
    ||| extension == "rs"@
    ||| extension == "js"@
    ||| extension == "ts"@
    ||| extension == "c"@
    ||| extension == "h"@
    ||| extension == "cpp"@
    ||| extension == "hpp"@
    ||| extension == "java"@
    ||| extension == "cs"@
    ||| extension == "go"@
    ||| extension == "swift"@
    ||| extension == "kt"@
    ||| extension == "kts"@
}

/// Extensions of the languages known to comment with `#`.
pub open spec fn comments_with_hash(extension: Seq<char>) -> bool {
    ||| extension == "py"@
    ||| extension == "sh"@
    ||| extension == "yaml"@
    ||| extension == "yml"@
    ||| extension == "toml"@
    ||| extension == "ini"@
    ||| extension == "rb"@
    ||| extension == "pl"@
    ||| extension == "r"@
    ||| extension == "php"@
    ||| extension == "ps1"@
    ||| extension == "makefile"@
}

/// Extensions of markup languages.
pub open spec fn is_markup(extension: Seq<char>) -> bool {
    ||| extension == "html"@
    ||| extension == "xml"@
    ||| extension == "xhtml"@
}

/// Extensions of stylesheet languages.
pub open spec fn is_stylesheet(extension: Seq<char>) -> bool {
    extension == "css"@
}

/// The comment convention of a lowercase extension. The table is closed:
/// whatever it does not list is commented with `//`.
pub open spec fn comment_syntax(extension: Seq<char>) -> CommentStyle {
    if comments_with_slashes(extension) {
        CommentStyle::Line("//")
    } else if comments_with_hash(extension) {
        CommentStyle::Line("#")
    } else if is_markup(extension) {
        CommentStyle::Block("<!--", "-->")
    } else if is_stylesheet(extension) {
        CommentStyle::Block("/*", "*/")
    } else {
        CommentStyle::Line("//")
    }
}

/// Resolves the comment convention of `extension`, which is compared as it
/// stands: callers lowercase it first.
pub fn get_comment_syntax(extension: &str) -> (style: CommentStyle)
    ensures
        style == comment_syntax(extension@),
{
    let e = to_chars(extension);
    if spells(&e, "rs") || spells(&e, "js") || spells(&e, "ts") || spells(&e, "c") || spells(
        &e,
        "h",
    ) || spells(&e, "cpp") || spells(&e, "hpp") || spells(&e, "java") || spells(&e, "cs")
        || spells(&e, "go") || spells(&e, "swift") || spells(&e, "kt") || spells(&e, "kts") {
        CommentStyle::Line("//")
    } else if spells(&e, "py") || spells(&e, "sh") || spells(&e, "yaml") || spells(&e, "yml")
        || spells(&e, "toml") || spells(&e, "ini") || spells(&e, "rb") || spells(&e, "pl")
        || spells(&e, "r") || spells(&e, "php") || spells(&e, "ps1") || spells(&e, "makefile") {
        CommentStyle::Line("#")
    } else if spells(&e, "html") || spells(&e, "xml") || spells(&e, "xhtml") {
        CommentStyle::Block("<!--", "-->")
    } else if spells(&e, "css") {
        CommentStyle::Block("/*", "*/")
    } else {
        CommentStyle::Line("//")
    }
}

impl CommentStyle {
    /// The header that names `path`: one line for a line comment, and for a
    /// block comment the opening marker with the path, then the closing marker
    /// on a line of its own. The header's last line is left open.
    pub open spec fn header(self, path: Seq<char>) -> Seq<char> {
        match self {
            CommentStyle::Line(prefix) => prefix@ + " "@ + path,
            CommentStyle::Block(open, close) => open@ + " "@ + path + "\n"@ + close@,
        }
    }

    /// Writes the header that names `path`.
    pub fn header_for(&self, path: &str) -> (text: String)
        ensures
            text@ == self.header(path@),
    {
        match *self {
            CommentStyle::Line(prefix) => {
                let mut text = String::from_str(prefix);
                text.append(" ");
                text.append(path);
                text
            },
            CommentStyle::Block(open, close) => {
                let mut text = String::from_str(open);
                text.append(" ");
                text.append(path);
                text.append("\n");
                text.append(close);
                text
            },
        }
    }
}

/// What one collected file adds to the buffer: its header, a line break, the
/// content as it was read, and a blank line.
pub open spec fn block_text(style: CommentStyle, path: Seq<char>, content: Seq<char>) -> Seq<
    char,
> {
    style.header(path) + "\n"@ + content + "\n\n"@
}

/// Writes the block of one collected file.
pub fn format_block(style: CommentStyle, path: &str, content: &str) -> (block: String)
    ensures
        block@ == block_text(style, path@, content@),
{
    let mut block = style.header_for(path);
    block.append("\n");
    block.append(content);
    block.append("\n\n");
    block
}

} // verus!
