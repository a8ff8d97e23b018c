//! The path tree: the collected paths rebuilt into a hierarchy for display.
//!
//! Every node keeps its children ordered by name, so a tree is fixed by the
//! set of paths put into it, and it renders the same in whatever order they
//! came.
use vstd::prelude::*;
use vstd::slice::slice_subrange;
use vstd::string::StringExecFns;
use crate::text::{
    comes_before, lemma_precedes_total, lemma_precedes_transitive, precedes, same_text, texts,
};

verus! {

/// What a tree node holds: its name and its children, in order.
pub ghost struct TreeView {
    /// The name of the node; empty for the root of a tree.
    pub name: Seq<char>,
    /// The nodes below it.
    pub children: Seq<TreeView>,
}

/// The glyph that leads from the parent to a node: one form for the last of
/// the siblings, another for the others.
pub open spec fn branch_glyph(is_last: bool) -> Seq<char> {
    if is_last {
        "└── "@
    } else {
        "├── "@
    }
}

/// What is put before the lines below a node: blank under the last of the
/// siblings, a vertical bar under the others.
pub open spec fn continuation_glyph(is_last: bool) -> Seq<char> {
    if is_last {
        "    "@
    } else {
        "│   "@
    }
}

/// Whether the names of `children` are in strictly ascending order.
pub open spec fn names_ascend(children: Seq<TreeView>) -> bool {
    forall|i: int, j: int|
        0 <= i < j < children.len() ==> precedes(
            (#[trigger] children[i]).name,
            (#[trigger] children[j]).name,
        )
}

impl TreeView {
    /// A node without children.
    pub open spec fn leaf(name: Seq<char>) -> TreeView {
        TreeView { name, children: Seq::empty() }
    }

    /// The nameless root of an empty tree.
    pub open spec fn root() -> TreeView {
        TreeView::leaf(Seq::empty())
    }

    /// Whether, at every node, the children are in strictly ascending order
    /// of their names. No two siblings then share a name.
    pub open spec fn ordered(self) -> bool
        decreases self,
    {
        &&& names_ascend(self.children)
        &&& forall|i: int| 0 <= i < self.children.len() ==> (#[trigger] self.children[i]).ordered()
    }

    /// The first position from `i` on whose child does not come before `name`.
    pub open spec fn slot_from(self, name: Seq<char>, i: int) -> int
        decreases self.children.len() - i,
    {
        if 0 <= i < self.children.len() && precedes(self.children[i].name, name) {
            self.slot_from(name, i + 1)
        } else {
            i
        }
    }

    /// Where the child called `name` stands, or where it would be put: behind
    /// the children whose names come before it.
    pub open spec fn slot(self, name: Seq<char>) -> int {
        self.slot_from(name, 0)
    }

    /// The tree with `path` put in: from this node down, one level for each
    /// component, a child is made wherever none of that name is there yet.
    pub open spec fn insert(self, path: Seq<Seq<char>>) -> TreeView
        decreases path.len(),
    {
        if path.len() == 0 {
            self
        } else {
            let name = path.first();
            let k = self.slot(name);
            if k < self.children.len() && self.children[k].name == name {
                TreeView {
                    name: self.name,
                    children: self.children.update(k, self.children[k].insert(path.drop_first())),
                }
            } else {
                TreeView {
                    name: self.name,
                    children: self.children.insert(
                        k,
                        TreeView::leaf(name).insert(path.drop_first()),
                    ),
                }
            }
        }
    }

    /// Whether the nodes named by the components of `path` lead, one below
    /// the other, down from this node.
    pub open spec fn has(self, path: Seq<Seq<char>>) -> bool
        decreases path.len(),
    {
        &&& path.len() > 0
        &&& exists|i: int|
            0 <= i < self.children.len() && (#[trigger] self.children[i]).name == path.first() && (
            path.len() == 1 || self.children[i].has(path.drop_first()))
    }

    /// The lines that show this node and all below it: the node's own line,
    /// unless it has no name, then the lines of its children in order.
    pub open spec fn render_lines(self, prefix: Seq<char>, is_last: bool) -> Seq<Seq<char>>
        decreases self, 1nat, 0nat,
    {
        let own = if self.name.len() > 0 {
            seq![prefix + branch_glyph(is_last) + self.name]
        } else {
            Seq::empty()
        };
        own + self.render_children(prefix + continuation_glyph(is_last), self.children.len())
    }

    /// The lines of the first `count` children, each with `prefix` before
    /// it. The last of all the children gets the closing glyph.
    pub open spec fn render_children(self, prefix: Seq<char>, count: nat) -> Seq<Seq<char>>
        decreases self, 0nat, count,
    {
        if count == 0 || count > self.children.len() {
            Seq::empty()
        } else {
            self.render_children(prefix, (count - 1) as nat) + self.children[count
                - 1].render_lines(prefix, count == self.children.len())
        }
    }
}

/// A node of the path tree. It owns its children, and keeps them in
/// ascending order of their names.
#[derive(Debug)]
pub struct TreeNode {
    name: String,
    children: Vec<TreeNode>,
}

impl View for TreeNode {
    type V = TreeView;

    closed spec fn view(&self) -> TreeView
        decreases self,
    {
        TreeView {
            name: self.name@,
            children: Seq::new(
                self.children.len() as nat,
                |i: int|
                    if 0 <= i < self.children.len() {
                        self.children[i].view()
                    } else {
                        TreeView::root()
                    },
            ),
        }
    }
}

/// The view of a node shows its name and the views of its children.
proof fn lemma_view(node: TreeNode)
    ensures
        node@.name == node.name@,
        node@.children.len() == node.children.len(),
        forall|i: int|
            0 <= i < node.children.len() ==> #[trigger] node@.children[i] == node.children[i]@,
{
}

/// The view of a node shows the names of its children.
proof fn lemma_child_name(node: TreeNode, i: int)
    requires
        0 <= i < node.children.len(),
    ensures
        node@.children[i] == node.children[i]@,
        node@.children[i].name == node.children[i].name@,
{
    lemma_view(node);
    lemma_view(node.children[i]);
}

impl TreeNode {
    /// What holds of every tree that this module hands out.
    pub open spec fn wf(&self) -> bool {
        self@.ordered()
    }

    /// A node called `name`, without children. The root of a tree has the
    /// empty name.
    pub fn new(name: String) -> (node: TreeNode)
        ensures
            node@ == TreeView::leaf(name@),
            node.wf(),
    {
        let node = TreeNode { name, children: Vec::new() };
        assert(node@.children =~= Seq::empty());
        node
    }

    /// The position of the child called `name`, or the one at which it
    /// would be put.
    fn slot_of(&self, name: &str) -> (k: usize)
        ensures
            k == self@.slot(name@),
            k <= self.children.len(),
    {
        let mut i: usize = 0;
        while i < self.children.len() && comes_before(self.children[i].name.as_str(), name)
            invariant
                i <= self.children.len(),
                self@.slot(name@) == self@.slot_from(name@, i as int),
            decreases self.children.len() - i,
        {
            proof {
                lemma_child_name(*self, i as int);
            }
            i = i + 1;
        }
        proof {
            lemma_view(*self);
            if i < self.children.len() {
                lemma_child_name(*self, i as int);
            }
        }
        i
    }

    /// Puts a path into the tree below this node, one level for each
    /// component.
    pub fn add_path(&mut self, path_components: &[String])
        requires
            old(self).wf(),
        ensures
            final(self).wf(),
            final(self)@ == old(self)@.insert(texts(path_components@)),
        decreases path_components.len(),
    {
        let ghost path = texts(path_components@);
        let ghost before = self@;
        if path_components.len() == 0 {
            return;
        }
        let name = &path_components[0];
        assert(name@ == path.first());
        let k = self.slot_of(name.as_str());
        let found = k < self.children.len() && same_text(
            self.children[k].name.as_str(),
            name.as_str(),
        );
        proof {
            lemma_view(*self);
            if k < self.children.len() {
                lemma_child_name(*self, k as int);
            }
        }
        if !found {
            self.children.insert(k, TreeNode::new(name.clone()));
        }
        let ghost middle = self@;
        let rest = slice_subrange(path_components, 1, path_components.len());
        assert(texts(rest@) =~= path.drop_first());
        proof {
            lemma_view(*self);
        }
        assert(middle.children =~= if found {
            before.children
        } else {
            before.children.insert(k as int, TreeView::leaf(path.first()))
        });
        self.children[k].add_path(rest);
        proof {
            lemma_view(*self);
            assert(self@.children =~= middle.children.update(
                k as int,
                middle.children[k as int].insert(path.drop_first()),
            ));
            assert(self@.children =~= before.insert(path).children);
            lemma_insert_ordered(before, path);
        }
    }

    /// The lines that show this node and all below it. Each line of a named
    /// node is `prefix`, a branch glyph and the name; the lines below it are
    /// indented by `prefix` and a continuation glyph.
    pub fn render(&self, prefix: &str, is_last: bool) -> (lines: Vec<String>)
        ensures
            texts(lines@) == self@.render_lines(prefix@, is_last),
    {
        let mut lines: Vec<String> = Vec::new();
        assert(texts(lines@) =~= Seq::<Seq<char>>::empty());
        self.render_into(prefix, is_last, &mut lines);
        lines
    }

    /// The lines that show the children of this node and all below them,
    /// each line of a child beginning with `prefix`.
    pub fn render_children(&self, prefix: &str) -> (lines: Vec<String>)
        ensures
            texts(lines@) == self@.render_children(prefix@, self@.children.len()),
    {
        let mut lines: Vec<String> = Vec::new();
        assert(texts(lines@) =~= Seq::<Seq<char>>::empty());
        self.render_children_into(prefix, &mut lines);
        lines
    }

    fn render_into(&self, prefix: &str, is_last: bool, lines: &mut Vec<String>)
        ensures
            texts(final(lines)@) == texts(old(lines)@) + self@.render_lines(prefix@, is_last),
        decreases self, 1nat,
    {
        let ghost start = texts(lines@);
        if !self.name.as_str().is_empty() {
            let mut line = String::from_str(prefix);
            line.append(if is_last {
                "└── "
            } else {
                "├── "
            });
            line.append(self.name.as_str());
            lines.push(line);
            assert(texts(lines@) =~= start + seq![
                prefix@ + branch_glyph(is_last) + self@.name,
            ]);
        }
        let mut below = String::from_str(prefix);
        below.append(if is_last {
            "    "
        } else {
            "│   "
        });
        self.render_children_into(below.as_str(), lines);
        assert(texts(lines@) =~= start + self@.render_lines(prefix@, is_last));
    }

    fn render_children_into(&self, prefix: &str, lines: &mut Vec<String>)
        ensures
            texts(final(lines)@) == texts(old(lines)@) + self@.render_children(
                prefix@,
                self@.children.len(),
            ),
        decreases self, 0nat,
    {
        let ghost start = texts(lines@);
        let mut i: usize = 0;
        assert(texts(lines@) =~= start + self@.render_children(prefix@, 0));
        while i < self.children.len()
            invariant
                i <= self.children.len(),
                texts(lines@) == start + self@.render_children(prefix@, i as nat),
            decreases self.children.len() - i,
        {
            self.children[i].render_into(prefix, i + 1 == self.children.len(), lines);
            assert(texts(lines@) =~= start + self@.render_children(prefix@, (i + 1) as nat));
            i = i + 1;
        }
    }
}

/// What `slot_from` finds: every child from `i` up to the slot comes before
/// `name`, and the child at the slot, if there is one, does not.
pub proof fn lemma_slot_from(tree: TreeView, name: Seq<char>, i: int)
    requires
        0 <= i <= tree.children.len(),
    ensures
        i <= tree.slot_from(name, i) <= tree.children.len(),
        forall|j: int|
            i <= j < tree.slot_from(name, i) ==> precedes((#[trigger] tree.children[j]).name, name),
        tree.slot_from(name, i) < tree.children.len() ==> !precedes(
            tree.children[tree.slot_from(name, i)].name,
            name,
        ),
    decreases tree.children.len() - i,
{
    if i < tree.children.len() && precedes(tree.children[i].name, name) {
        lemma_slot_from(tree, name, i + 1);
    }
}

/// In a node whose children ascend by name, every child behind the slot of
/// `name` comes after `name`, and so does the child at the slot unless it is
/// called `name` itself.
pub proof fn lemma_slot_in_order(tree: TreeView, name: Seq<char>)
    requires
        names_ascend(tree.children),
    ensures
        0 <= tree.slot(name) <= tree.children.len(),
        forall|j: int|
            0 <= j < tree.slot(name) ==> precedes((#[trigger] tree.children[j]).name, name),
        forall|j: int|
            tree.slot(name) <= j < tree.children.len() && (j > tree.slot(name)
                || tree.children[j].name != name) ==> precedes(
                name,
                (#[trigger] tree.children[j]).name,
            ),
{
    let k = tree.slot(name);
    lemma_slot_from(tree, name, 0);
    assert forall|j: int|
        k <= j < tree.children.len() && (j > k || tree.children[j].name != name) implies precedes(
        name,
        (#[trigger] tree.children[j]).name,
    ) by {
        let at_slot = tree.children[k].name;
        lemma_precedes_total(at_slot, name);
        if j > k {
            assert(precedes(at_slot, tree.children[j].name));
            if at_slot != name {
                lemma_precedes_transitive(name, at_slot, tree.children[j].name);
            }
        }
    }
}

/// Putting a path into an ordered tree leaves it ordered, and leaves the
/// name of its top node as it was.
pub proof fn lemma_insert_ordered(tree: TreeView, path: Seq<Seq<char>>)
    requires
        tree.ordered(),
    ensures
        tree.insert(path).ordered(),
        tree.insert(path).name == tree.name,
    decreases path.len(),
{
    if path.len() > 0 {
        let name = path.first();
        let rest = path.drop_first();
        let k = tree.slot(name);
        let after = tree.insert(path);
        lemma_slot_in_order(tree, name);
        if k < tree.children.len() && tree.children[k].name == name {
            lemma_insert_ordered(tree.children[k], rest);
            assert forall|i: int, j: int| 0 <= i < j < after.children.len() implies precedes(
                (#[trigger] after.children[i]).name,
                (#[trigger] after.children[j]).name,
            ) by {
                assert(after.children[i].name == tree.children[i].name);
                assert(after.children[j].name == tree.children[j].name);
            }
            assert forall|i: int| 0 <= i < after.children.len() implies (
            #[trigger] after.children[i]).ordered() by {
                if i != k {
                    assert(after.children[i] == tree.children[i]);
                }
            }
        } else {
            lemma_insert_ordered(TreeView::leaf(name), rest);
            assert forall|i: int, j: int| 0 <= i < j < after.children.len() implies precedes(
                (#[trigger] after.children[i]).name,
                (#[trigger] after.children[j]).name,
            ) by {
                if j < k {
                    assert(after.children[i] == tree.children[i]);
                    assert(after.children[j] == tree.children[j]);
                } else if j == k {
                    assert(after.children[i] == tree.children[i]);
                } else if i < k {
                    assert(after.children[i] == tree.children[i]);
                    assert(after.children[j] == tree.children[j - 1]);
                } else if i == k {
                    assert(after.children[j] == tree.children[j - 1]);
                } else {
                    assert(after.children[i] == tree.children[i - 1]);
                    assert(after.children[j] == tree.children[j - 1]);
                }
            }
            assert forall|i: int| 0 <= i < after.children.len() implies (
            #[trigger] after.children[i]).ordered() by {
                if i < k {
                    assert(after.children[i] == tree.children[i]);
                } else if i > k {
                    assert(after.children[i] == tree.children[i - 1]);
                }
            }
        }
    }
}

} // verus!
