//! The filter policy: which entries of the scanned tree are collected.
//!
//! A file is collected only if no directory above it is excluded by name, no
//! component of its path is hidden, and its extension is on the allow-list
//! where one is configured. Ignore-file rules are applied by the traversal,
//! which offers only the entries that they let through.
use vstd::prelude::*;
use vstd::string::StrSliceExecFns;
use crate::text::{holds_name, texts, to_chars};

verus! {

/// The lowercase form of a text, as `str::to_lowercase` of the standard
/// library computes it.
pub uninterp spec fn lowercase_of(text: Seq<char>) -> Seq<char>;

/// `str::to_lowercase` of the standard library. Its result depends on the
/// characters of `s` alone; the contract gives that result a name and says
/// nothing more of it.
pub assume_specification[ str::to_lowercase ](s: &str) -> (lower: String)
    ensures
        lower@ == lowercase_of(s@),
;

/// The position of the last `.` in `name`, or -1 where it has none.
pub open spec fn last_dot(name: Seq<char>) -> int
    decreases name.len(),
{
    if name.len() == 0 {
        -1
    } else if name.last() == '.' {
        name.len() - 1
    } else {
        last_dot(name.drop_last())
    }
}

/// The extension of a file name: what follows its last `.`, unless the name
/// has no `.` or only a leading one, in which case it has no extension.
pub open spec fn extension_of(name: Seq<char>) -> Seq<char> {
    let dot = last_dot(name);
    if dot <= 0 {
        Seq::empty()
    } else {
        name.subrange(dot + 1, name.len() as int)
    }
}

/// The extension of a file name, without the dot; empty where it has none.
pub fn file_extension(name: &str) -> (extension: String)
    ensures
        extension@ == extension_of(name@),
{
    let chars = to_chars(name);
    let mut i: usize = chars.len();
    assert(name@.take(chars.len() as int) =~= name@);
    while i > 0 && chars[i - 1] != '.'
        invariant
            chars@ == name@,
            i <= chars.len(),
            last_dot(name@) == last_dot(name@.take(i as int)),
        decreases i,
    {
        assert(name@.take(i as int).drop_last() =~= name@.take(i - 1));
        i = i - 1;
    }
    if i <= 1 {
        assert(last_dot(name@) <= 0) by {
            if i == 1 {
                assert(name@.take(1).last() == '.');
            }
        }
        String::new()
    } else {
        assert(last_dot(name@) == i - 1);
        name.substring_char(i, chars.len()).to_owned()
    }
}

/// The lowercase extension of a file name, by which it is filtered and its
/// comment convention is chosen.
pub open spec fn lowercase_extension_of(name: Seq<char>) -> Seq<char> {
    lowercase_of(extension_of(name))
}

/// The lowercase extension of a file name.
pub fn lowercase_extension(name: &str) -> (extension: String)
    ensures
        extension@ == lowercase_extension_of(name@),
{
    let extension = file_extension(name);
    extension.as_str().to_lowercase()
}

/// A name is hidden if it begins with a dot.
pub open spec fn is_hidden(name: Seq<char>) -> bool {
    name.len() > 0 && name[0] == '.'
}

/// Whether `name` is hidden.
pub fn is_hidden_name(name: &str) -> (hidden: bool)
    ensures
        hidden == is_hidden(name@),
{
    let chars = to_chars(name);
    chars.len() > 0 && chars[0] == '.'
}

/// The directory names that are excluded whatever the user asks for.
pub open spec fn default_excluded_names() -> Seq<Seq<char>> {
    seq![
        "node_modules"@,
        "target"@,
        "build"@,
        "dist"@,
        "venv"@,
        "env"@,
        ".venv"@,
        ".env"@,
    ]
}

/// The built-in excluded directory names.
pub fn default_excluded_dirs() -> (names: Vec<String>)
    ensures
        texts(names@) == default_excluded_names(),
{
    let mut names: Vec<String> = Vec::new();
    names.push("node_modules".to_owned());
    names.push("target".to_owned());
    names.push("build".to_owned());
    names.push("dist".to_owned());
    names.push("venv".to_owned());
    names.push("env".to_owned());
    names.push(".venv".to_owned());
    names.push(".env".to_owned());
    assert(texts(names@) =~= default_excluded_names());
    names
}

/// A list that holds the same names, in the same order.
fn copy_names(list: &Vec<String>) -> (copy: Vec<String>)
    ensures
        texts(copy@) == texts(list@),
{
    let mut copy: Vec<String> = Vec::new();
    let mut i: usize = 0;
    while i < list.len()
        invariant
            i <= list.len(),
            copy.len() == i,
            forall|j: int| 0 <= j < i ==> copy@[j]@ == list@[j]@,
        decreases list.len() - i,
    {
        copy.push(list[i].clone());
        i = i + 1;
    }
    assert(texts(copy@) =~= texts(list@));
    copy
}

/// The lowercase forms of a list of texts, in order.
pub open spec fn lowercased(list: Seq<Seq<char>>) -> Seq<Seq<char>> {
    Seq::new(list.len(), |i: int| lowercase_of(list[i]))
}

/// What a filter configuration holds.
pub struct FilterConfigView {
    /// The allowed extensions, lowercase; empty where any extension passes.
    pub extensions: Seq<Seq<char>>,
    /// The names of the directories that are never entered.
    pub excluded_dir_names: Seq<Seq<char>>,
}

impl FilterConfigView {
    /// Whether a lowercase extension passes the allow-list. An empty list
    /// restricts nothing; otherwise the extension must equal a member.
    pub open spec fn allows_extension(self, extension: Seq<char>) -> bool {
        self.extensions.len() == 0 || self.extensions.contains(extension)
    }

    /// Whether a directory of this name is never entered.
    pub open spec fn excludes(self, name: Seq<char>) -> bool {
        self.excluded_dir_names.contains(name)
    }

    /// Whether some directory above the last component of `path` is excluded.
    pub open spec fn under_excluded(self, path: Seq<Seq<char>>) -> bool {
        exists|i: int| 0 <= i < path.len() - 1 && self.excludes(#[trigger] path[i])
    }

    /// Whether the file at `path`, given by its components below the scan
    /// root, passes every check of the policy.
    pub open spec fn admits(self, path: Seq<Seq<char>>) -> bool {
        &&& path.len() > 0
        &&& !has_hidden(path)
        &&& !self.under_excluded(path)
        &&& self.allows_extension(lowercase_extension_of(path.last()))
    }
}

/// Whether some component of `path` is hidden.
pub open spec fn has_hidden(path: Seq<Seq<char>>) -> bool {
    exists|i: int| 0 <= i < path.len() && is_hidden(#[trigger] path[i])
}

/// What the traversal does with an entry.
#[derive(Clone, Copy, Debug, PartialEq, Eq)]
pub enum Decision {
    /// A directory that is not entered.
    Prune,
    /// A directory that is entered.
    Descend,
    /// A file that is read and collected.
    Collect,
    /// A file that is passed over.
    Skip,
}

/// An entry that the traversal came upon.
#[derive(Debug)]
pub struct WalkEntry {
    /// The components of its path below the scan root; the last is its name.
    pub components: Vec<String>,
    /// Whether it is a directory.
    pub is_dir: bool,
}

/// The decision that the policy takes on an entry with the given components.
/// A directory is entered unless it is hidden or excluded by name, or lies
/// under such a directory; the scan root, whose path is empty, is always
/// entered. The extension plays no part for a directory.
pub open spec fn decision_of(config: FilterConfigView, path: Seq<Seq<char>>, is_dir: bool)
    -> Decision {
    if is_dir {
        if path.len() == 0 || (!has_hidden(path) && !config.under_excluded(path)
            && !config.excludes(path.last())) {
            Decision::Descend
        } else {
            Decision::Prune
        }
    } else if config.admits(path) {
        Decision::Collect
    } else {
        Decision::Skip
    }
}

/// The filter configuration of one run: built once, then only read.
#[derive(Debug)]
pub struct FilterConfig {
    extensions: Vec<String>,
    excluded_dir_names: Vec<String>,
}

impl View for FilterConfig {
    type V = FilterConfigView;

    closed spec fn view(&self) -> FilterConfigView {
        FilterConfigView {
            extensions: texts(self.extensions@),
            excluded_dir_names: texts(self.excluded_dir_names@),
        }
    }
}

impl Clone for FilterConfig {
    /// A configuration that holds the same extensions and directory names.
    fn clone(&self) -> (copy: FilterConfig)
        ensures
            copy@ == self@,
    {
        FilterConfig {
            extensions: copy_names(&self.extensions),
            excluded_dir_names: copy_names(&self.excluded_dir_names),
        }
    }
}

impl FilterConfig {
    /// Builds the configuration: the extensions are lowercased, and the
    /// directory names are added to the built-in ones.
    pub fn new(extensions: Vec<String>, exclude_dirs: Vec<String>) -> (config: FilterConfig)
        ensures
            config@.extensions == lowercased(texts(extensions@)),
            config@.excluded_dir_names == default_excluded_names() + texts(exclude_dirs@),
    {
        let mut lowered: Vec<String> = Vec::new();
        let mut i: usize = 0;
        while i < extensions.len()
            invariant
                i <= extensions.len(),
                lowered.len() == i,
                forall|j: int| 0 <= j < i ==> lowered@[j]@ == lowercase_of(extensions@[j]@),
            decreases extensions.len() - i,
        {
            lowered.push(extensions[i].as_str().to_lowercase());
            i = i + 1;
        }
        let mut excluded = default_excluded_dirs();
        let mut k: usize = 0;
        while k < exclude_dirs.len()
            invariant
                k <= exclude_dirs.len(),
                texts(excluded@) == default_excluded_names() + texts(exclude_dirs@).take(k as int),
            decreases exclude_dirs.len() - k,
        {
            let ghost before = texts(excluded@);
            excluded.push(exclude_dirs[k].clone());
            assert(texts(excluded@) =~= before.push(exclude_dirs@[k as int]@));
            assert(texts(exclude_dirs@).take(k + 1) =~= texts(exclude_dirs@).take(k as int).push(
                exclude_dirs@[k as int]@,
            ));
            k = k + 1;
        }
        assert(texts(lowered@) =~= lowercased(texts(extensions@)));
        assert(texts(exclude_dirs@).take(k as int) =~= texts(exclude_dirs@));
        FilterConfig { extensions: lowered, excluded_dir_names: excluded }
    }

    /// The allowed extensions, lowercase, in the order in which they were given.
    pub fn extensions(&self) -> (list: &Vec<String>)
        ensures
            texts(list@) == self@.extensions,
    {
        &self.extensions
    }

    /// The names of the directories that are never entered.
    pub fn excluded_dir_names(&self) -> (list: &Vec<String>)
        ensures
            texts(list@) == self@.excluded_dir_names,
    {
        &self.excluded_dir_names
    }

    /// Whether a lowercase extension passes the allow-list.
    pub fn allows_extension(&self, extension: &str) -> (allowed: bool)
        ensures
            allowed == self@.allows_extension(extension@),
    {
        self.extensions.len() == 0 || holds_name(&self.extensions, extension)
    }

    /// Whether the traversal must stay out of an entry with this name: it
    /// must where the entry is a directory whose name is excluded.
    pub fn prunes(&self, name: &str, is_dir: bool) -> (pruned: bool)
        ensures
            pruned == (is_dir && self@.excludes(name@)),
    {
        is_dir && holds_name(&self.excluded_dir_names, name)
    }

    /// Whether the path has a hidden component or lies under an excluded
    /// directory.
    fn blocked(&self, path: &Vec<String>) -> (blocked: bool)
        ensures
            blocked == (has_hidden(texts(path@)) || self@.under_excluded(texts(path@))),
    {
        let ghost p = texts(path@);
        let mut i: usize = 0;
        while i < path.len()
            invariant
                i <= path.len(),
                p == texts(path@),
                forall|j: int| 0 <= j < i ==> !is_hidden(#[trigger] p[j]),
                forall|j: int| 0 <= j < i && j < p.len() - 1 ==> !self@.excludes(#[trigger] p[j]),
            decreases path.len() - i,
        {
            let name = path[i].as_str();
            assert(p[i as int] == name@);
            if is_hidden_name(name) {
                return true;
            }
            if i + 1 < path.len() && holds_name(&self.excluded_dir_names, name) {
                return true;
            }
            i = i + 1;
        }
        false
    }

    /// Whether the file at `path`, given by its components below the scan
    /// root, is collected.
    pub fn admits(&self, path: &Vec<String>) -> (admitted: bool)
        ensures
            admitted == self@.admits(texts(path@)),
    {
        if path.len() == 0 || self.blocked(path) {
            return false;
        }
        let name = path[path.len() - 1].as_str();
        assert(texts(path@).last() == name@);
        let extension = lowercase_extension(name);
        self.allows_extension(extension.as_str())
    }

    /// Decides what the traversal does with `entry`.
    pub fn decide(&self, entry: &WalkEntry) -> (decision: Decision)
        ensures
            decision == decision_of(self@, texts(entry.components@), entry.is_dir),
    {
        if entry.is_dir {
            let path = &entry.components;
            if path.len() == 0 {
                return Decision::Descend;
            }
            if self.blocked(path) {
                return Decision::Prune;
            }
            let name = path[path.len() - 1].as_str();
            assert(texts(path@).last() == name@);
            if holds_name(&self.excluded_dir_names, name) {
                Decision::Prune
            } else {
                Decision::Descend
            }
        } else if self.admits(&entry.components) {
            Decision::Collect
        } else {
            Decision::Skip
        }
    }
}

} // verus!
