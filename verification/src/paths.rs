//! Paths as lists of components: how a path is written out, and how it is
//! taken relative to the scan root.
use vstd::prelude::*;
use vstd::string::StringExecFns;
use crate::text::texts;

verus! {

/// The components written out in order, with the separator between them.
pub open spec fn joined(components: Seq<Seq<char>>, separator: Seq<char>) -> Seq<char>
    decreases components.len(),
{
    if components.len() == 0 {
        Seq::empty()
    } else if components.len() == 1 {
        components[0]
    } else {
        joined(components.drop_last(), separator) + separator + components.last()
    }
}

/// Writes a path out, with `separator` between its components.
pub fn join_components(components: &Vec<String>, separator: &str) -> (path: String)
    ensures
        path@ == joined(texts(components@), separator@),
{
    let ghost all = texts(components@);
    let mut path = String::new();
    let mut i: usize = 0;
    while i < components.len()
        invariant
            i <= components.len(),
            all == texts(components@),
            path@ == joined(all.take(i as int), separator@),
        decreases components.len() - i,
    {
        if i > 0 {
            path.append(separator);
        }
        path.append(components[i].as_str());
        proof {
            assert(all.take(i + 1).drop_last() =~= all.take(i as int));
            assert(all.take(i + 1).last() == components@[i as int]@);
            if i == 0 {
                assert(path@ =~= components@[i as int]@);
            }
        }
        i = i + 1;
    }
    assert(all.take(i as int) =~= all);
    path
}

/// The path below `root`: what is left of `path` once the components of
/// `root` are taken off its front. A path that does not begin with them has
/// none.
pub open spec fn below_root(root: Seq<Seq<char>>, path: Seq<Seq<char>>) -> Option<
    Seq<Seq<char>>,
> {
    if root.is_prefix_of(path) {
        Some(path.skip(root.len() as int))
    } else {
        None
    }
}

/// Takes `path` relative to `root`.
pub fn relative_to(root: &Vec<String>, path: &Vec<String>) -> (relative: Option<Vec<String>>)
    ensures
        match relative {
            Some(rest) => below_root(texts(root@), texts(path@)) == Some(texts(rest@)),
            None => below_root(texts(root@), texts(path@)) is None,
        },
{
    let ghost r = texts(root@);
    let ghost p = texts(path@);
    if root.len() > path.len() {
        return None;
    }
    let mut i: usize = 0;
    while i < root.len()
        invariant
            i <= root.len() <= path.len(),
            r == texts(root@),
            p == texts(path@),
            forall|j: int| 0 <= j < i ==> r[j] == p[j],
        decreases root.len() - i,
    {
        if root[i] != path[i] {
            assert(r[i as int] != p[i as int]);
            return None;
        }
        i = i + 1;
    }
    assert(r.is_prefix_of(p)) by {
        assert(r =~= p.subrange(0, r.len() as int));
    }
    let mut rest: Vec<String> = Vec::new();
    let mut k: usize = root.len();
    while k < path.len()
        invariant
            root.len() <= k <= path.len(),
            p == texts(path@),
            texts(rest@) == p.subrange(root.len() as int, k as int),
        decreases path.len() - k,
    {
        let ghost before = texts(rest@);
        rest.push(path[k].clone());
        assert(texts(rest@) =~= before.push(p[k as int]));
        assert(p.subrange(root.len() as int, k + 1) =~= p.subrange(
            root.len() as int,
            k as int,
        ).push(p[k as int]));
        k = k + 1;
    }
    assert(p.subrange(root.len() as int, p.len() as int) =~= p.skip(root.len() as int));
    Some(rest)
}

} // verus!
