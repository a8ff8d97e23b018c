//! The aggregator: it takes the files that the traversal offers, one after
//! the other, and grows the buffer and the list of collected paths.
use vstd::prelude::*;
use vstd::string::StringExecFns;
use vstd::utf8::{decode_utf8, valid_utf8};
use crate::comment::{block_text, comment_syntax, format_block, get_comment_syntax};
use crate::filter::{lowercase_extension, lowercase_extension_of, FilterConfig, FilterConfigView};
use crate::paths::{join_components, joined};
use crate::text::{text_lists, texts};

verus! {

/// `String::from_utf8` of the standard library: the bytes decode to a text
/// exactly where they are valid UTF-8, and the text is what they encode.
#[verifier::external_body]
fn decode_text(bytes: Vec<u8>) -> (text: Option<String>)
    ensures
        text is Some <==> valid_utf8(bytes@),
        text matches Some(decoded) ==> decoded@ == decode_utf8(bytes@),
{
    String::from_utf8(bytes).ok()
}

/// What came of reading a file.
#[derive(Debug, PartialEq, Eq)]
pub enum FileRead {
    /// The bytes of the file.
    Bytes(Vec<u8>),
    /// The file could not be read; the text says why.
    Failed(String),
}

/// What the aggregator did with a file.
#[derive(Debug, PartialEq, Eq)]
pub enum Disposition {
    /// The file was added to the buffer and to the list of collected paths.
    Included,
    /// The filter policy does not admit the file.
    Filtered,
    /// The content of the file is no text.
    SkippedBinary,
    /// The file could not be read; the text says why.
    Unreadable(String),
}

/// The diagnostic line for a disposition, with the path as it is shown to
/// the user. A file that was included or filtered out has none.
pub open spec fn notice_text(disposition: Disposition, shown_path: Seq<char>) -> Option<
    Seq<char>,
> {
    match disposition {
        Disposition::Included | Disposition::Filtered => None,
        Disposition::SkippedBinary => Some("Skipping binary file "@ + shown_path),
        Disposition::Unreadable(cause) => Some(
            "Could not read file "@ + shown_path + ": "@ + cause@,
        ),
    }
}

impl Disposition {
    /// Writes the diagnostic line, if this disposition has one.
    pub fn notice(&self, shown_path: &str) -> (line: Option<String>)
        ensures
            match line {
                Some(text) => notice_text(*self, shown_path@) == Some(text@),
                None => notice_text(*self, shown_path@) is None,
            },
    {
        match self {
            Disposition::Included => None,
            Disposition::Filtered => None,
            Disposition::SkippedBinary => {
                let mut text = String::from_str("Skipping binary file ");
                text.append(shown_path);
                Some(text)
            },
            Disposition::Unreadable(cause) => {
                let mut text = String::from_str("Could not read file ");
                text.append(shown_path);
                text.append(": ");
                text.append(cause.as_str());
                Some(text)
            },
        }
    }
}

/// What becomes of a file: it is filtered out where the policy does not
/// admit it; otherwise it is unreadable where reading failed, skipped where
/// its bytes are no valid text, and included where they are.
pub open spec fn disposition_of(config: FilterConfigView, path: Seq<Seq<char>>, read: FileRead)
    -> Disposition {
    if !config.admits(path) {
        Disposition::Filtered
    } else {
        match read {
            FileRead::Failed(reason) => Disposition::Unreadable(reason),
            FileRead::Bytes(bytes) => if valid_utf8(bytes@) {
                Disposition::Included
            } else {
                Disposition::SkippedBinary
            },
        }
    }
}

/// The text of a file that was read, where its bytes are valid text.
pub open spec fn content_of(read: FileRead) -> Seq<char> {
    match read {
        FileRead::Bytes(bytes) => decode_utf8(bytes@),
        FileRead::Failed(_) => Seq::empty(),
    }
}

/// The block that the file at `path` adds to the buffer: the header follows
/// the comment convention of the file's lowercase extension and names the
/// path as it is written out with `separator`.
pub open spec fn block_of(path: Seq<Seq<char>>, content: Seq<char>, separator: Seq<char>) -> Seq<
    char,
> {
    block_text(
        comment_syntax(lowercase_extension_of(path.last())),
        joined(path, separator),
        content,
    )
}

/// The buffer for the given files: their blocks, one after the other.
pub open spec fn aggregate(
    files: Seq<Seq<Seq<char>>>,
    contents: Seq<Seq<char>>,
    separator: Seq<char>,
) -> Seq<char>
    decreases files.len(),
{
    if files.len() == 0 || contents.len() != files.len() {
        Seq::empty()
    } else {
        aggregate(files.drop_last(), contents.drop_last(), separator) + block_of(
            files.last(),
            contents.last(),
            separator,
        )
    }
}

/// The running state of the aggregation.
pub struct Aggregator {
    config: FilterConfig,
    separator: String,
    buffer: String,
    included: Vec<Vec<String>>,
    contents: Ghost<Seq<Seq<char>>>,
}

impl Aggregator {
    /// The filter configuration of the run.
    pub closed spec fn config(&self) -> FilterConfigView {
        self.config@
    }

    /// The text that separates the components of a path in a header.
    pub closed spec fn separator(&self) -> Seq<char> {
        self.separator@
    }

    /// The buffer as it stands.
    pub closed spec fn buffer(&self) -> Seq<char> {
        self.buffer@
    }

    /// The paths of the collected files, in the order in which they came.
    pub closed spec fn included(&self) -> Seq<Seq<Seq<char>>> {
        text_lists(self.included@)
    }

    /// The contents of the collected files, in the same order.
    pub closed spec fn contents(&self) -> Seq<Seq<char>> {
        self.contents@
    }

    /// What holds of the aggregator at all times: every collected file is
    /// admitted by the policy, and the buffer holds exactly one block for
    /// each of them, in order.
    pub open spec fn wf(&self) -> bool {
        &&& self.contents().len() == self.included().len()
        &&& self.buffer() == aggregate(self.included(), self.contents(), self.separator())
        &&& forall|i: int|
            0 <= i < self.included().len() ==> self.config().admits(#[trigger] self.included()[i])
    }

    /// An aggregator that has collected nothing yet.
    pub fn new(config: FilterConfig, separator: &str) -> (aggregator: Aggregator)
        ensures
            aggregator.wf(),
            aggregator.config() == config@,
            aggregator.separator() == separator@,
            aggregator.buffer() == Seq::<char>::empty(),
            aggregator.included() == Seq::<Seq<Seq<char>>>::empty(),
            aggregator.contents() == Seq::<Seq<char>>::empty(),
    {
        let aggregator = Aggregator {
            config,
            separator: separator.to_owned(),
            buffer: String::new(),
            included: Vec::new(),
            contents: Ghost(Seq::empty()),
        };
        assert(aggregator.included() =~= Seq::<Seq<Seq<char>>>::empty());
        aggregator
    }

    /// Whether the file at `path` would be read: the policy admits it.
    pub fn wants(&self, path: &Vec<String>) -> (wanted: bool)
        ensures
            wanted == self.config().admits(texts(path@)),
    {
        self.config.admits(path)
    }

    /// Takes one file, given by its path below the scan root and by what
    /// came of reading it. A file that the policy admits and whose bytes
    /// are valid text is collected: its block is appended to the buffer and
    /// its path to the list. Any other file leaves the aggregator as it
    /// was, and the disposition says why.
    pub fn absorb(&mut self, path: Vec<String>, read: FileRead) -> (disposition: Disposition)
        requires
            old(self).wf(),
        ensures
            final(self).wf(),
            final(self).config() == old(self).config(),
            final(self).separator() == old(self).separator(),
            disposition == disposition_of(old(self).config(), texts(path@), read),
            if disposition is Included {
                &&& final(self).included() == old(self).included().push(texts(path@))
                &&& final(self).contents() == old(self).contents().push(content_of(read))
                &&& final(self).buffer() == old(self).buffer() + block_of(
                    texts(path@),
                    content_of(read),
                    old(self).separator(),
                )
            } else {
                final(self).unchanged_since(old(self))
            },
    {
        if !self.config.admits(&path) {
            return Disposition::Filtered;
        }
        match read {
            FileRead::Failed(reason) => Disposition::Unreadable(reason),
            FileRead::Bytes(bytes) => {
                match decode_text(bytes) {
                    None => Disposition::SkippedBinary,
                    Some(content) => {
                        let name = path[path.len() - 1].as_str();
                        assert(texts(path@).last() == name@);
                        let extension = lowercase_extension(name);
                        let style = get_comment_syntax(extension.as_str());
                        let shown = join_components(&path, self.separator.as_str());
                        let block = format_block(style, shown.as_str(), content.as_str());
                        let ghost before = *self;
                        self.buffer.append(block.as_str());
                        self.included.push(path);
                        self.contents = Ghost(self.contents@.push(content@));
                        proof {
                            assert(self.included() =~= before.included().push(texts(path@)));
                            assert(self.included().drop_last() =~= before.included());
                            assert(self.contents().drop_last() =~= before.contents());
                        }
                        Disposition::Included
                    },
                }
            },
        }
    }

    /// Whether buffer, collected paths and contents are those of `earlier`.
    pub open spec fn unchanged_since(&self, earlier: &Aggregator) -> bool {
        &&& self.buffer() == earlier.buffer()
        &&& self.included() == earlier.included()
        &&& self.contents() == earlier.contents()
    }

    /// The buffer as it stands.
    pub fn buffer_text(&self) -> (text: &String)
        ensures
            text@ == self.buffer(),
    {
        &self.buffer
    }

    /// The paths of the collected files, in the order in which they came.
    pub fn included_files(&self) -> (files: &Vec<Vec<String>>)
        ensures
            text_lists(files@) == self.included(),
    {
        &self.included
    }

    /// Hands out the buffer and the paths of the collected files.
    pub fn into_parts(self) -> (parts: (String, Vec<Vec<String>>))
        ensures
            parts.0@ == self.buffer(),
            text_lists(parts.1@) == self.included(),
    {
        (self.buffer, self.included)
    }
}

} // verus!
