//! What the lines of a rendered tree show: each line stands for one chain of
//! names that leads down the tree, and the chains with a line are exactly
//! the paths that the tree has, but for those that end in an empty name.
use vstd::prelude::*;
use crate::tree::{branch_glyph, continuation_glyph, TreeView};

verus! {

/// The chains of names that have a line when `node` is rendered, in the
/// order of the lines. `above` holds the names that lead to the node. A node
/// without a name has no line of its own.
pub open spec fn shown_chains(node: TreeView, above: Seq<Seq<char>>) -> Seq<Seq<Seq<char>>>
    decreases node, 1nat, 0nat,
{
    let own = if node.name.len() > 0 {
        seq![above.push(node.name)]
    } else {
        Seq::empty()
    };
    own + children_chains(node, above.push(node.name), node.children.len())
}

/// The chains of names that have a line when the first `count` children of
/// `tree` are rendered, in the order of the lines. `above` holds the names
/// that lead to the children.
pub open spec fn children_chains(tree: TreeView, above: Seq<Seq<char>>, count: nat) -> Seq<
    Seq<Seq<char>>,
>
    decreases tree, 0nat, count,
{
    if count == 0 || count > tree.children.len() {
        Seq::empty()
    } else {
        children_chains(tree, above, (count - 1) as nat) + shown_chains(
            tree.children[count - 1],
            above,
        )
    }
}

/// The line of a node called `name`: what leads up to it, a branch glyph,
/// and the name.
pub open spec fn line_text(lead: Seq<char>, is_last: bool, name: Seq<char>) -> Seq<char> {
    lead + branch_glyph(is_last) + name
}

/// Whether `line` is the line of a node called `name`.
pub open spec fn line_shows(line: Seq<char>, name: Seq<char>) -> bool {
    exists|lead: Seq<char>, is_last: bool| line == #[trigger] line_text(lead, is_last, name)
}

/// Whether some of the first `count` children of `tree` begins the path.
pub open spec fn has_among(tree: TreeView, path: Seq<Seq<char>>, count: nat) -> bool {
    &&& path.len() > 0
    &&& exists|i: int|
        0 <= i < count && i < tree.children.len() && (#[trigger] tree.children[i]).name
            == path.first() && (path.len() == 1 || tree.children[i].has(path.drop_first()))
}

/// Whether `chain` leads through `node`, which stands below `above`, and
/// ends at a node with a name.
pub open spec fn leads_through(node: TreeView, above: Seq<Seq<char>>, chain: Seq<Seq<char>>)
    -> bool {
    &&& above.is_prefix_of(chain)
    &&& chain.len() > above.len()
    &&& chain[above.len() as int] == node.name
    &&& chain.last().len() > 0
    &&& chain.len() == above.len() + 1 || node.has(chain.skip(above.len() as int + 1))
}

/// Whether `chain` leads from `above` down one of the first `count`
/// children of `tree`, and ends at a node with a name.
pub open spec fn leads_below(
    tree: TreeView,
    above: Seq<Seq<char>>,
    chain: Seq<Seq<char>>,
    count: nat,
) -> bool {
    &&& above.is_prefix_of(chain)
    &&& chain.len() > above.len()
    &&& chain.last().len() > 0
    &&& has_among(tree, chain.skip(above.len() as int), count)
}

/// Every line of a rendered node stands for one chain of names: there are
/// as many lines as chains, and each line shows the last name of its chain.
pub proof fn lemma_lines_of_node(
    node: TreeView,
    prefix: Seq<char>,
    is_last: bool,
    above: Seq<Seq<char>>,
)
    ensures
        node.render_lines(prefix, is_last).len() == shown_chains(node, above).len(),
        forall|i: int|
            0 <= i < shown_chains(node, above).len() ==> line_shows(
                #[trigger] node.render_lines(prefix, is_last)[i],
                shown_chains(node, above)[i].last(),
            ),
    decreases node, 1nat, 0nat,
{
    let below = prefix + continuation_glyph(is_last);
    let up = above.push(node.name);
    let count = node.children.len();
    lemma_lines_of_children(node, below, up, count);
    let lines = node.render_lines(prefix, is_last);
    let chains = shown_chains(node, above);
    assert forall|i: int| 0 <= i < chains.len() implies line_shows(
        #[trigger] lines[i],
        chains[i].last(),
    ) by {
        if node.name.len() > 0 && i == 0 {
            assert(lines[0] == line_text(prefix, is_last, node.name));
            assert(chains[0] == up);
        } else {
            let k = if node.name.len() > 0 {
                i - 1
            } else {
                i
            };
            assert(lines[i] == node.render_children(below, count)[k]);
            assert(chains[i] == children_chains(node, up, count)[k]);
        }
    }
}

/// Every line of the rendered children stands for one chain of names.
pub proof fn lemma_lines_of_children(
    tree: TreeView,
    prefix: Seq<char>,
    above: Seq<Seq<char>>,
    count: nat,
)
    ensures
        tree.render_children(prefix, count).len() == children_chains(tree, above, count).len(),
        forall|i: int|
            0 <= i < children_chains(tree, above, count).len() ==> line_shows(
                #[trigger] tree.render_children(prefix, count)[i],
                children_chains(tree, above, count)[i].last(),
            ),
    decreases tree, 0nat, count,
{
    if count > 0 && count <= tree.children.len() {
        let earlier = (count - 1) as nat;
        let child = tree.children[count - 1];
        let closes = count == tree.children.len();
        lemma_lines_of_children(tree, prefix, above, earlier);
        lemma_lines_of_node(child, prefix, closes, above);
        let lines = tree.render_children(prefix, count);
        let chains = children_chains(tree, above, count);
        let n = children_chains(tree, above, earlier).len();
        assert forall|i: int| 0 <= i < chains.len() implies line_shows(
            #[trigger] lines[i],
            chains[i].last(),
        ) by {
            if i < n {
                assert(lines[i] == tree.render_children(prefix, earlier)[i]);
                assert(chains[i] == children_chains(tree, above, earlier)[i]);
            } else {
                assert(lines[i] == child.render_lines(prefix, closes)[i - n]);
                assert(chains[i] == shown_chains(child, above)[i - n]);
            }
        }
    }
}

proof fn lemma_contains_in_either<A>(a: Seq<A>, b: Seq<A>, x: A)
    ensures
        (a + b).contains(x) <==> a.contains(x) || b.contains(x),
{
    if (a + b).contains(x) {
        let i = choose|i: int| 0 <= i < (a + b).len() && (a + b)[i] == x;
        if i < a.len() {
            assert(a[i] == x);
        } else {
            assert(b[i - a.len()] == x);
        }
    }
    if a.contains(x) {
        let i = choose|i: int| 0 <= i < a.len() && a[i] == x;
        assert((a + b)[i] == x);
    }
    if b.contains(x) {
        let i = choose|i: int| 0 <= i < b.len() && b[i] == x;
        assert((a + b)[a.len() + i] == x);
    }
}

/// A chain has a line in the rendering of a node exactly where it leads
/// through the node and ends at a node with a name.
pub proof fn lemma_chains_of_node(node: TreeView, above: Seq<Seq<char>>, chain: Seq<Seq<char>>)
    ensures
        shown_chains(node, above).contains(chain) <==> leads_through(node, above, chain),
    decreases node, 1nat, 0nat,
{
    let up = above.push(node.name);
    let count = node.children.len();
    let own = if node.name.len() > 0 {
        seq![up]
    } else {
        Seq::empty()
    };
    let rest = children_chains(node, up, count);
    lemma_contains_in_either(own, rest, chain);
    lemma_chains_of_children(node, up, chain, count);
    let deeper = chain.skip(above.len() as int + 1);
    if own.contains(chain) {
        assert(own[0] == chain);
        assert(above =~= chain.subrange(0, above.len() as int));
    }
    if leads_below(node, up, chain, count) {
        assert(above =~= chain.subrange(0, above.len() as int)) by {
            assert(up =~= chain.subrange(0, up.len() as int));
            assert forall|j: int| 0 <= j < above.len() implies above[j] == chain[j] by {
                assert(up[j] == chain.subrange(0, up.len() as int)[j]);
            }
        }
        assert(chain[above.len() as int] == node.name) by {
            assert(up[above.len() as int] == chain.subrange(0, up.len() as int)[above.len() as int]);
        }
        assert(chain.skip(up.len() as int) =~= deeper);
        let i = choose|i: int|
            0 <= i < count && i < node.children.len() && (#[trigger] node.children[i]).name
                == deeper.first() && (deeper.len() == 1 || node.children[i].has(
                deeper.drop_first(),
            ));
        assert(node.has(deeper));
    }
    if leads_through(node, above, chain) {
        assert(up =~= chain.subrange(0, up.len() as int)) by {
            assert forall|j: int| 0 <= j < up.len() implies up[j] == chain[j] by {
                if j < above.len() {
                    assert(above[j] == chain.subrange(0, above.len() as int)[j]);
                }
            }
        }
        if chain.len() == above.len() + 1 {
            assert(chain =~= up);
            assert(node.name == chain.last());
            assert(own[0] == chain);
        } else {
            assert(chain.skip(up.len() as int) =~= deeper);
            let i = choose|i: int|
                0 <= i < node.children.len() && (#[trigger] node.children[i]).name
                    == deeper.first() && (deeper.len() == 1 || node.children[i].has(
                    deeper.drop_first(),
                ));
            assert(has_among(node, deeper, count));
        }
    }
}

/// A chain has a line in the rendering of the first `count` children
/// exactly where it leads down one of them and ends at a node with a name.
pub proof fn lemma_chains_of_children(
    tree: TreeView,
    above: Seq<Seq<char>>,
    chain: Seq<Seq<char>>,
    count: nat,
)
    requires
        count <= tree.children.len(),
    ensures
        children_chains(tree, above, count).contains(chain) <==> leads_below(
            tree,
            above,
            chain,
            count,
        ),
    decreases tree, 0nat, count,
{
    if count > 0 {
        let earlier = (count - 1) as nat;
        let child = tree.children[count - 1];
        lemma_contains_in_either(
            children_chains(tree, above, earlier),
            shown_chains(child, above),
            chain,
        );
        lemma_chains_of_children(tree, above, chain, earlier);
        lemma_chains_of_node(child, above, chain);
        let rest = chain.skip(above.len() as int);
        if above.is_prefix_of(chain) && chain.len() > above.len() {
            assert(rest.first() == chain[above.len() as int]);
            assert(rest.drop_first() =~= chain.skip(above.len() as int + 1));
            assert(rest.len() == 1 <==> chain.len() == above.len() + 1);
        }
        if leads_below(tree, above, chain, earlier) {
            let i = choose|i: int|
                0 <= i < earlier && i < tree.children.len() && (#[trigger] tree.children[i]).name
                    == rest.first() && (rest.len() == 1 || tree.children[i].has(
                    rest.drop_first(),
                ));
            assert(has_among(tree, rest, count));
        }
        if leads_through(child, above, chain) {
            assert(tree.children[count - 1].name == rest.first());
            assert(has_among(tree, rest, count));
        }
        if leads_below(tree, above, chain, count) {
            let i = choose|i: int|
                0 <= i < count && i < tree.children.len() && (#[trigger] tree.children[i]).name
                    == rest.first() && (rest.len() == 1 || tree.children[i].has(
                    rest.drop_first(),
                ));
            if i < earlier {
                assert(has_among(tree, rest, earlier));
            } else {
                assert(leads_through(child, above, chain));
            }
        }
    }
}

} // verus!
