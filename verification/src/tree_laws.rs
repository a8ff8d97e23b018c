//! What holds of path trees: which paths a tree has after paths were put in,
//! and that an ordered tree is fixed by the paths it has.
use vstd::prelude::*;
use crate::text::{lemma_precedes_asymmetric, lemma_precedes_irreflexive, precedes};
use crate::tree::{lemma_insert_ordered, names_ascend, TreeView};

verus! {

/// Whether `path` is a beginning of `whole` and has at least one component.
pub open spec fn begins(path: Seq<Seq<char>>, whole: Seq<Seq<char>>) -> bool {
    path.len() > 0 && path.is_prefix_of(whole)
}

proof fn lemma_begins_step(path: Seq<Seq<char>>, whole: Seq<Seq<char>>)
    requires
        path.len() > 0,
        whole.len() > 0,
    ensures
        begins(path, whole) <==> (path.first() == whole.first() && (path.len() == 1 || begins(
            path.drop_first(),
            whole.drop_first(),
        ))),
{
    let p = path.drop_first();
    let w = whole.drop_first();
    if begins(path, whole) {
        assert(path.first() == whole.subrange(0, path.len() as int)[0]);
        if path.len() > 1 {
            assert(p =~= w.subrange(0, p.len() as int)) by {
                assert forall|i: int| 0 <= i < p.len() implies p[i] == w.subrange(
                    0,
                    p.len() as int,
                )[i] by {
                    assert(path[i + 1] == whole.subrange(0, path.len() as int)[i + 1]);
                }
            }
        }
    }
    if path.first() == whole.first() && (path.len() == 1 || begins(p, w)) {
        if path.len() == 1 {
            assert(path =~= whole.subrange(0, 1));
        } else {
            assert(path =~= whole.subrange(0, path.len() as int)) by {
                assert forall|i: int| 0 <= i < path.len() implies path[i] == whole.subrange(
                    0,
                    path.len() as int,
                )[i] by {
                    if i > 0 {
                        assert(p[i - 1] == w.subrange(0, p.len() as int)[i - 1]);
                    }
                }
            }
        }
    }
}

/// After `added` was put into a tree, the tree has the paths that it had
/// before and the beginnings of `added`, and no others.
pub proof fn lemma_insert_has(tree: TreeView, added: Seq<Seq<char>>, path: Seq<Seq<char>>)
    ensures
        tree.insert(added).has(path) <==> (tree.has(path) || begins(path, added)),
    decreases added.len(),
{
    if added.len() > 0 && path.len() > 0 {
        let name = added.first();
        let rest = added.drop_first();
        let below = path.drop_first();
        let k = tree.slot(name);
        let after = tree.insert(added);
        crate::tree::lemma_slot_from(tree, name, 0);
        lemma_begins_step(path, added);
        if k < tree.children.len() && tree.children[k].name == name {
            let child = tree.children[k];
            lemma_insert_has(child, rest, below);
            assert(after.children[k] == child.insert(rest));
            lemma_insert_ordered_name(child, rest);
            if after.has(path) {
                let i = choose|i: int|
                    0 <= i < after.children.len() && (#[trigger] after.children[i]).name
                        == path.first() && (path.len() == 1 || after.children[i].has(below));
                if i != k {
                    assert(after.children[i] == tree.children[i]);
                    assert(tree.children[i].name == path.first());
                } else if path.len() > 1 && child.has(below) {
                    assert(tree.children[k].name == path.first());
                }
            }
            if tree.has(path) {
                let i = choose|i: int|
                    0 <= i < tree.children.len() && (#[trigger] tree.children[i]).name
                        == path.first() && (path.len() == 1 || tree.children[i].has(below));
                if i != k {
                    assert(after.children[i] == tree.children[i]);
                    assert(after.children[i].name == path.first());
                } else {
                    assert(after.children[k].name == path.first());
                }
            }
            if begins(path, added) {
                assert(after.children[k].name == path.first());
            }
        } else {
            let fresh = TreeView::leaf(name);
            lemma_insert_has(fresh, rest, below);
            lemma_insert_ordered_name(fresh, rest);
            assert(after.children[k] == fresh.insert(rest));
            if after.has(path) {
                let i = choose|i: int|
                    0 <= i < after.children.len() && (#[trigger] after.children[i]).name
                        == path.first() && (path.len() == 1 || after.children[i].has(below));
                if i < k {
                    assert(after.children[i] == tree.children[i]);
                    assert(tree.children[i].name == path.first());
                } else if i > k {
                    assert(after.children[i] == tree.children[i - 1]);
                    assert(tree.children[i - 1].name == path.first());
                }
            }
            if tree.has(path) {
                let i = choose|i: int|
                    0 <= i < tree.children.len() && (#[trigger] tree.children[i]).name
                        == path.first() && (path.len() == 1 || tree.children[i].has(below));
                if i < k {
                    assert(after.children[i] == tree.children[i]);
                    assert(after.children[i].name == path.first());
                } else {
                    assert(after.children[i + 1] == tree.children[i]);
                    assert(after.children[i + 1].name == path.first());
                }
            }
            if begins(path, added) {
                assert(after.children[k].name == path.first());
            }
        }
    }
}

/// Putting a path into a tree leaves the name of its top node as it was.
proof fn lemma_insert_ordered_name(tree: TreeView, path: Seq<Seq<char>>)
    ensures
        tree.insert(path).name == tree.name,
{
}

/// The tree of a list of paths: each is put, in turn, into a tree that
/// begins as a nameless root.
pub open spec fn tree_of(files: Seq<Seq<Seq<char>>>) -> TreeView
    decreases files.len(),
{
    if files.len() == 0 {
        TreeView::root()
    } else {
        tree_of(files.drop_last()).insert(files.last())
    }
}

/// Whether `path` is a beginning of one of `files`.
pub open spec fn begins_one_of(path: Seq<Seq<char>>, files: Seq<Seq<Seq<char>>>) -> bool {
    exists|k: int| 0 <= k < files.len() && begins(path, #[trigger] files[k])
}

/// The tree of a list of paths is ordered, its root has no name, and it has
/// exactly the beginnings of those paths.
pub proof fn lemma_tree_of(files: Seq<Seq<Seq<char>>>)
    ensures
        tree_of(files).ordered(),
        tree_of(files).name == Seq::<char>::empty(),
        forall|path: Seq<Seq<char>>| #[trigger]
            tree_of(files).has(path) <==> begins_one_of(path, files),
    decreases files.len(),
{
    if files.len() > 0 {
        let earlier = files.drop_last();
        lemma_tree_of(earlier);
        lemma_insert_ordered(tree_of(earlier), files.last());
        assert forall|path: Seq<Seq<char>>| #[trigger]
            tree_of(files).has(path) <==> begins_one_of(path, files) by {
            lemma_insert_has(tree_of(earlier), files.last(), path);
            if begins_one_of(path, earlier) {
                let k = choose|k: int| 0 <= k < earlier.len() && begins(path, #[trigger] earlier[k]);
                assert(files[k] == earlier[k]);
            }
            if begins(path, files.last()) {
                assert(files[files.len() - 1] == files.last());
            }
            if begins_one_of(path, files) {
                let k = choose|k: int| 0 <= k < files.len() && begins(path, #[trigger] files[k]);
                if k < files.len() - 1 {
                    assert(earlier[k] == files[k]);
                }
            }
        }
    }
}

/// The names of a list of nodes, in order.
pub open spec fn names_of(children: Seq<TreeView>) -> Seq<Seq<char>> {
    Seq::new(children.len(), |i: int| children[i].name)
}

/// Whether a list of names is in strictly ascending order.
pub open spec fn ascending(names: Seq<Seq<char>>) -> bool {
    forall|i: int, j: int| 0 <= i < j < names.len() ==> precedes(names[i], names[j])
}

/// Two ascending lists that hold the same names are the same list.
pub proof fn lemma_ascending_lists_equal(a: Seq<Seq<char>>, b: Seq<Seq<char>>)
    requires
        ascending(a),
        ascending(b),
        forall|name: Seq<char>| a.contains(name) <==> b.contains(name),
    ensures
        a == b,
    decreases a.len(),
{
    if a.len() == 0 {
        if b.len() > 0 {
            assert(b.contains(b[0]));
        }
        assert(a =~= b);
    } else {
        assert(a.contains(a.last()));
        assert(b.len() > 0);
        assert(b.contains(b.last()));
        let i = choose|i: int| 0 <= i < a.len() && a[i] == b.last();
        let j = choose|j: int| 0 <= j < b.len() && b[j] == a.last();
        if a.last() != b.last() {
            assert(precedes(a[i], a[a.len() - 1]));
            assert(precedes(b[j], b[b.len() - 1]));
            lemma_precedes_asymmetric(a.last(), b.last());
        }
        let a0 = a.drop_last();
        let b0 = b.drop_last();
        assert forall|name: Seq<char>| a0.contains(name) <==> b0.contains(name) by {
            if a0.contains(name) {
                let m = choose|m: int| 0 <= m < a0.len() && a0[m] == name;
                assert(a[m] == name);
                assert(precedes(a[m], a[a.len() - 1]));
                lemma_precedes_irreflexive(name);
                assert(b.contains(name));
                let n = choose|n: int| 0 <= n < b.len() && b[n] == name;
                assert(b0[n] == name);
            }
            if b0.contains(name) {
                let m = choose|m: int| 0 <= m < b0.len() && b0[m] == name;
                assert(b[m] == name);
                assert(precedes(b[m], b[b.len() - 1]));
                lemma_precedes_irreflexive(name);
                assert(a.contains(name));
                let n = choose|n: int| 0 <= n < a.len() && a[n] == name;
                assert(a0[n] == name);
            }
        }
        lemma_ascending_lists_equal(a0, b0);
        assert(a =~= a0.push(a.last()));
        assert(b =~= b0.push(b.last()));
    }
}

/// An ordered tree is fixed by its name and the paths it has: two ordered
/// trees of one name that have the same paths are the same tree.
pub proof fn lemma_same_paths_same_tree(a: TreeView, b: TreeView)
    requires
        a.ordered(),
        b.ordered(),
        a.name == b.name,
        forall|path: Seq<Seq<char>>| a.has(path) <==> b.has(path),
    ensures
        a == b,
    decreases a,
{
    let an = names_of(a.children);
    let bn = names_of(b.children);
    assert forall|name: Seq<char>| an.contains(name) <==> bn.contains(name) by {
        let single = seq![name];
        assert(single.first() == name);
        assert(a.has(single) <==> b.has(single));
        if an.contains(name) {
            let i = choose|i: int| 0 <= i < an.len() && an[i] == name;
            assert(a.children[i].name == name);
            assert(a.has(single));
            let j = choose|j: int|
                0 <= j < b.children.len() && (#[trigger] b.children[j]).name == single.first() && (
                single.len() == 1 || b.children[j].has(single.drop_first()));
            assert(bn[j] == name);
        }
        if bn.contains(name) {
            let i = choose|i: int| 0 <= i < bn.len() && bn[i] == name;
            assert(b.children[i].name == name);
            assert(b.has(single));
            let j = choose|j: int|
                0 <= j < a.children.len() && (#[trigger] a.children[j]).name == single.first() && (
                single.len() == 1 || a.children[j].has(single.drop_first()));
            assert(an[j] == name);
        }
    }
    assert(ascending(an)) by {
        assert forall|i: int, j: int| 0 <= i < j < an.len() implies precedes(an[i], an[j]) by {
            assert(precedes(a.children[i].name, a.children[j].name));
        }
    }
    assert(ascending(bn)) by {
        assert forall|i: int, j: int| 0 <= i < j < bn.len() implies precedes(bn[i], bn[j]) by {
            assert(precedes(b.children[i].name, b.children[j].name));
        }
    }
    lemma_ascending_lists_equal(an, bn);
    assert(an.len() == a.children.len() && bn.len() == b.children.len());
    assert forall|i: int| 0 <= i < a.children.len() implies a.children[i] == b.children[i] by {
        let x = a.children[i];
        let y = b.children[i];
        assert(x.name == an[i] && y.name == bn[i]);
        assert forall|path: Seq<Seq<char>>| x.has(path) <==> y.has(path) by {
            let longer = seq![x.name] + path;
            assert(longer.first() == x.name);
            assert(longer.drop_first() =~= path);
            assert(a.has(longer) <==> b.has(longer));
            if x.has(path) {
                assert(a.has(longer));
                let j = choose|j: int|
                    0 <= j < b.children.len() && (#[trigger] b.children[j]).name == longer.first()
                        && (longer.len() == 1 || b.children[j].has(longer.drop_first()));
                lemma_one_child_per_name(b, i, j);
            }
            if y.has(path) {
                assert(b.has(longer));
                let j = choose|j: int|
                    0 <= j < a.children.len() && (#[trigger] a.children[j]).name == longer.first()
                        && (longer.len() == 1 || a.children[j].has(longer.drop_first()));
                lemma_one_child_per_name(a, i, j);
            }
        }
        lemma_same_paths_same_tree(x, y);
    }
    assert(a.children =~= b.children);
}

/// In an ordered tree no two children of a node share a name.
pub proof fn lemma_one_child_per_name(tree: TreeView, i: int, j: int)
    requires
        names_ascend(tree.children),
        0 <= i < tree.children.len(),
        0 <= j < tree.children.len(),
        tree.children[i].name == tree.children[j].name,
    ensures
        i == j,
{
    lemma_precedes_irreflexive(tree.children[i].name);
    if i < j {
        assert(precedes(tree.children[i].name, tree.children[j].name));
    } else if j < i {
        assert(precedes(tree.children[j].name, tree.children[i].name));
    }
}

/// What putting a path in comes to: the result is the one ordered tree of
/// the same name that has the paths that were there and the beginnings of
/// the new path, and no others.
pub proof fn lemma_insert_is_the_only_such_tree(
    tree: TreeView,
    added: Seq<Seq<char>>,
    other: TreeView,
)
    requires
        tree.ordered(),
        other.ordered(),
        other.name == tree.name,
        forall|path: Seq<Seq<char>>|
            other.has(path) <==> (tree.has(path) || begins(path, added)),
    ensures
        other == tree.insert(added),
{
    lemma_insert_ordered(tree, added);
    assert forall|path: Seq<Seq<char>>| tree.insert(added).has(path) <==> other.has(path) by {
        lemma_insert_has(tree, added, path);
    }
    lemma_same_paths_same_tree(tree.insert(added), other);
}

/// The tree does not depend on the order in which the paths come, nor on how
/// often one comes: two lists that hold the same paths give the same tree,
/// and so the same lines.
pub proof fn lemma_tree_order_independent(
    first: Seq<Seq<Seq<char>>>,
    second: Seq<Seq<Seq<char>>>,
)
    requires
        forall|file: Seq<Seq<char>>| first.contains(file) <==> second.contains(file),
    ensures
        tree_of(first) == tree_of(second),
        tree_of(first).ordered(),
{
    lemma_tree_of(first);
    lemma_tree_of(second);
    let a = tree_of(first);
    let b = tree_of(second);
    assert forall|path: Seq<Seq<char>>| a.has(path) <==> b.has(path) by {
        if begins_one_of(path, first) {
            let k = choose|k: int| 0 <= k < first.len() && begins(path, #[trigger] first[k]);
            assert(first.contains(first[k]));
            let m = choose|m: int| 0 <= m < second.len() && second[m] == first[k];
            assert(begins(path, second[m]));
        }
        if begins_one_of(path, second) {
            let k = choose|k: int| 0 <= k < second.len() && begins(path, #[trigger] second[k]);
            assert(second.contains(second[k]));
            let m = choose|m: int| 0 <= m < first.len() && first[m] == second[k];
            assert(begins(path, first[m]));
        }
    }
    lemma_same_paths_same_tree(a, b);
}

} // verus!
