//! What holds of every run: of the files it collects, of the tree it shows,
//! and of the files it passes over.
use vstd::prelude::*;
use vstd::utf8::valid_utf8;
use crate::aggregate::{
    aggregate, block_of, notice_text, Aggregator, Disposition, FileRead,
};
use crate::comment::comment_syntax;
use crate::driver::{
    collected_contents, collected_files, dispositions_of, tree_lines_of, Offer,
};
use crate::filter::{has_hidden, is_hidden, lowercase_extension_of, FilterConfigView};
use crate::paths::joined;
use crate::text::texts;
use crate::tree_lines::{
    children_chains, lemma_chains_of_children, lemma_lines_of_children, line_shows,
};
use crate::tree_laws::{
    begins, begins_one_of, lemma_tree_of, lemma_tree_order_independent, tree_of,
};

verus! {

/// Every file that a run over `offers` collects is admitted by the policy,
/// and the run keeps one content for each.
pub proof fn lemma_collected_files_admitted(config: FilterConfigView, offers: Seq<Offer>)
    ensures
        collected_contents(config, offers).len() == collected_files(config, offers).len(),
        forall|i: int|
            0 <= i < collected_files(config, offers).len() ==> config.admits(
                #[trigger] collected_files(config, offers)[i],
            ),
    decreases offers.len(),
{
    if offers.len() > 0 {
        lemma_collected_files_admitted(config, offers.drop_last());
    }
}

/// Where an allow-list is configured, the lowercase extension of every
/// collected file is on it.
pub proof fn lemma_collected_extensions_allowed(aggregator: Aggregator, i: int)
    requires
        aggregator.wf(),
        0 <= i < aggregator.included().len(),
        aggregator.config().extensions.len() > 0,
    ensures
        aggregator.config().extensions.contains(
            lowercase_extension_of(aggregator.included()[i].last()),
        ),
{
    assert(aggregator.config().admits(aggregator.included()[i]));
}

/// No collected file lies beneath an excluded directory, at whatever depth,
/// and nothing in the tree of the collected files does.
pub proof fn lemma_nothing_beneath_excluded(aggregator: Aggregator)
    requires
        aggregator.wf(),
    ensures
        forall|k: int, i: int|
            0 <= k < aggregator.included().len() && 0 <= i < aggregator.included()[k].len() - 1
                ==> !aggregator.config().excludes(#[trigger] aggregator.included()[k][i]),
        forall|path: Seq<Seq<char>>, i: int|
            tree_of(aggregator.included()).has(path) && 0 <= i < path.len() - 1
                ==> !aggregator.config().excludes(#[trigger] path[i]),
{
    let files = aggregator.included();
    let config = aggregator.config();
    assert forall|k: int, i: int| 0 <= k < files.len() && 0 <= i < files[k].len() - 1 implies
        !config.excludes(#[trigger] files[k][i]) by {
        assert(config.admits(files[k]));
    }
    lemma_tree_of(files);
    assert forall|path: Seq<Seq<char>>, i: int|
        tree_of(files).has(path) && 0 <= i < path.len() - 1 implies !config.excludes(
        #[trigger] path[i],
    ) by {
        assert(begins_one_of(path, files));
        let k = choose|k: int| 0 <= k < files.len() && begins(path, #[trigger] files[k]);
        assert(path[i] == files[k].subrange(0, path.len() as int)[i]);
        assert(!config.excludes(files[k][i]));
    }
}

/// No collected file is hidden or lies beneath a hidden directory, and
/// nothing in the tree of the collected files is hidden.
pub proof fn lemma_nothing_hidden(aggregator: Aggregator)
    requires
        aggregator.wf(),
    ensures
        forall|k: int|
            0 <= k < aggregator.included().len() ==> !has_hidden(
                #[trigger] aggregator.included()[k],
            ),
        forall|path: Seq<Seq<char>>|
            tree_of(aggregator.included()).has(path) ==> !#[trigger] has_hidden(path),
{
    let files = aggregator.included();
    let config = aggregator.config();
    assert forall|k: int| 0 <= k < files.len() implies !has_hidden(#[trigger] files[k]) by {
        assert(config.admits(files[k]));
    }
    lemma_tree_of(files);
    assert forall|path: Seq<Seq<char>>| tree_of(files).has(path) implies !#[trigger] has_hidden(
        path,
    ) by {
        assert(begins_one_of(path, files));
        let k = choose|k: int| 0 <= k < files.len() && begins(path, #[trigger] files[k]);
        if has_hidden(path) {
            let i = choose|i: int| 0 <= i < path.len() && is_hidden(#[trigger] path[i]);
            assert(path[i] == files[k].subrange(0, path.len() as int)[i]);
            assert(is_hidden(files[k][i]));
            assert(has_hidden(files[k]));
        }
    }
}

/// A file whose bytes are no valid text leaves no trace: the run collects
/// the same files with the same contents as if the file had not been
/// offered. Where the policy admits the file, it is skipped as binary, and
/// that disposition has a diagnostic line.
pub proof fn lemma_binary_file_leaves_no_trace(
    config: FilterConfigView,
    offers: Seq<Offer>,
    i: int,
)
    requires
        0 <= i < offers.len(),
        offers[i].read matches FileRead::Bytes(bytes) && !valid_utf8(bytes@),
    ensures
        collected_files(config, offers) == collected_files(config, offers.remove(i)),
        collected_contents(config, offers) == collected_contents(config, offers.remove(i)),
        config.admits(texts(offers[i].path@)) ==> dispositions_of(config, offers)[i]
            == Disposition::SkippedBinary,
        forall|shown: Seq<char>| notice_text(Disposition::SkippedBinary, shown) is Some,
        tree_lines_of(collected_files(config, offers)) == tree_lines_of(
            collected_files(config, offers.remove(i)),
        ),
        forall|chain: Seq<Seq<char>>|
            tree_chains_of(collected_files(config, offers)).contains(chain) ==> begins_one_of(
                chain,
                collected_files(config, offers.remove(i)),
            ),
    decreases offers.len(),
{
    if i == offers.len() - 1 {
        assert(offers.remove(i) =~= offers.drop_last());
    } else {
        lemma_binary_file_leaves_no_trace(config, offers.drop_last(), i);
        assert(offers.remove(i).drop_last() =~= offers.drop_last().remove(i));
        assert(offers.remove(i).last() == offers.last());
    }
    lemma_lines_show_the_files(collected_files(config, offers));
}

/// Rendering does not depend on the order in which the files were
/// collected: two lists that hold the same paths are shown by the same
/// lines, whatever is put before them, and in every node of the tree the
/// siblings stand in ascending order of their names.
pub proof fn lemma_tree_lines_order_independent(
    first: Seq<Seq<Seq<char>>>,
    second: Seq<Seq<Seq<char>>>,
)
    requires
        forall|file: Seq<Seq<char>>| first.contains(file) <==> second.contains(file),
    ensures
        tree_lines_of(first) == tree_lines_of(second),
        forall|prefix: Seq<char>, is_last: bool|
            tree_of(first).render_lines(prefix, is_last) == tree_of(second).render_lines(
                prefix,
                is_last,
            ),
        tree_of(first).ordered(),
{
    lemma_tree_order_independent(first, second);
}

/// The blocks of the given files, one for each, in order.
pub open spec fn blocks_of(
    files: Seq<Seq<Seq<char>>>,
    contents: Seq<Seq<char>>,
    separator: Seq<char>,
) -> Seq<Seq<char>> {
    Seq::new(files.len(), |i: int| block_of(files[i], contents[i], separator))
}

/// The given texts, written one after the other.
pub open spec fn concatenated(parts: Seq<Seq<char>>) -> Seq<char>
    decreases parts.len(),
{
    if parts.len() == 0 {
        Seq::empty()
    } else {
        concatenated(parts.drop_last()) + parts.last()
    }
}

/// The buffer is made of exactly one block for each collected file, in the
/// order in which the files came, and nothing else. Each block begins with
/// the header that the comment convention of the file's lowercase extension
/// gives for its path; then come a line break, the content, and the blank
/// line that closes the block.
pub proof fn lemma_buffer_is_one_block_per_file(aggregator: Aggregator)
    requires
        aggregator.wf(),
    ensures
        aggregator.buffer() == concatenated(
            blocks_of(aggregator.included(), aggregator.contents(), aggregator.separator()),
        ),
        blocks_of(aggregator.included(), aggregator.contents(), aggregator.separator()).len()
            == aggregator.included().len(),
        forall|i: int|
            0 <= i < aggregator.included().len() ==> (#[trigger] blocks_of(
                aggregator.included(),
                aggregator.contents(),
                aggregator.separator(),
            )[i]) == comment_syntax(
                lowercase_extension_of(aggregator.included()[i].last()),
            ).header(joined(aggregator.included()[i], aggregator.separator())) + "\n"@
                + aggregator.contents()[i] + "\n\n"@,
{
    lemma_aggregate_is_concatenation(
        aggregator.included(),
        aggregator.contents(),
        aggregator.separator(),
    );
}

proof fn lemma_aggregate_is_concatenation(
    files: Seq<Seq<Seq<char>>>,
    contents: Seq<Seq<char>>,
    separator: Seq<char>,
)
    requires
        contents.len() == files.len(),
    ensures
        aggregate(files, contents, separator) == concatenated(
            blocks_of(files, contents, separator),
        ),
    decreases files.len(),
{
    if files.len() > 0 {
        lemma_aggregate_is_concatenation(files.drop_last(), contents.drop_last(), separator);
        assert(blocks_of(files, contents, separator).drop_last() =~= blocks_of(
            files.drop_last(),
            contents.drop_last(),
            separator,
        ));
    }
}

/// Whether two readings of a file came out the same: the same bytes, or a
/// failure for the same reason.
pub open spec fn same_reading(first: FileRead, second: FileRead) -> bool {
    match (first, second) {
        (FileRead::Bytes(a), FileRead::Bytes(b)) => a@ == b@,
        (FileRead::Failed(a), FileRead::Failed(b)) => a@ == b@,
        _ => false,
    }
}

/// Whether two traversals offered the same files, read the same way, in the
/// same order.
pub open spec fn same_offers(first: Seq<Offer>, second: Seq<Offer>) -> bool {
    &&& first.len() == second.len()
    &&& forall|i: int|
        0 <= i < first.len() ==> texts((#[trigger] first[i]).path@) == texts(second[i].path@)
            && same_reading(first[i].read, second[i].read)
}

/// A run can be repeated: with the same configuration and the same
/// separator, two traversals that offer the same files collect the same
/// files with the same contents, and so fill the same buffer and show the
/// same tree; and they give the same diagnostic lines.
pub proof fn lemma_run_repeatable(
    config: FilterConfigView,
    separator: Seq<char>,
    first: Seq<Offer>,
    second: Seq<Offer>,
)
    requires
        same_offers(first, second),
    ensures
        collected_files(config, first) == collected_files(config, second),
        collected_contents(config, first) == collected_contents(config, second),
        aggregate(
            collected_files(config, first),
            collected_contents(config, first),
            separator,
        ) == aggregate(
            collected_files(config, second),
            collected_contents(config, second),
            separator,
        ),
        tree_lines_of(collected_files(config, first)) == tree_lines_of(
            collected_files(config, second),
        ),
        forall|i: int, shown: Seq<char>|
            0 <= i < first.len() ==> #[trigger] notice_text(
                dispositions_of(config, first)[i],
                shown,
            ) == notice_text(dispositions_of(config, second)[i], shown),
    decreases first.len(),
{
    if first.len() > 0 {
        let a = first.drop_last();
        let b = second.drop_last();
        assert(same_offers(a, b)) by {
            assert forall|i: int| 0 <= i < a.len() implies texts((#[trigger] a[i]).path@) == texts(
                b[i].path@,
            ) && same_reading(a[i].read, b[i].read) by {
                assert(a[i] == first[i] && b[i] == second[i]);
            }
        }
        lemma_run_repeatable(config, separator, a, b);
        let last = first.len() - 1;
        assert(first.last() == first[last] && second.last() == second[last]);
    }
}

/// The chains of names that have a line in the tree of the given files, in
/// the order of the lines.
pub open spec fn tree_chains_of(files: Seq<Seq<Seq<char>>>) -> Seq<Seq<Seq<char>>> {
    children_chains(tree_of(files), Seq::empty(), tree_of(files).children.len())
}

/// The lines of the tree stand for the files and the directories above
/// them, and for nothing else: there is one line for each chain of names,
/// the line shows the last name of its chain, and a chain has a line
/// exactly where it begins one of the files and does not end in an empty
/// name.
pub proof fn lemma_lines_show_the_files(files: Seq<Seq<Seq<char>>>)
    ensures
        tree_lines_of(files).len() == tree_chains_of(files).len(),
        forall|i: int|
            0 <= i < tree_chains_of(files).len() ==> line_shows(
                #[trigger] tree_lines_of(files)[i],
                tree_chains_of(files)[i].last(),
            ),
        forall|chain: Seq<Seq<char>>| #[trigger]
            tree_chains_of(files).contains(chain) <==> begins_one_of(chain, files)
                && chain.last().len() > 0,
{
    let tree = tree_of(files);
    let none = Seq::<Seq<char>>::empty();
    lemma_lines_of_children(tree, Seq::empty(), none, tree.children.len());
    lemma_tree_of(files);
    assert forall|chain: Seq<Seq<char>>| #[trigger]
        tree_chains_of(files).contains(chain) <==> begins_one_of(chain, files) && chain.last().len()
            > 0 by {
        lemma_chains_of_children(tree, none, chain, tree.children.len());
        assert(chain.skip(0) =~= chain);
        assert(none.is_prefix_of(chain)) by {
            assert(none =~= chain.subrange(0, 0));
        }
        if tree.has(chain) {
            assert(begins_one_of(chain, files));
        }
    }
}

/// The lines that rendering the root of the tree gives stand for the same
/// chains of names, whatever is put before the lines.
pub proof fn lemma_root_lines_show_the_files(
    files: Seq<Seq<Seq<char>>>,
    prefix: Seq<char>,
    is_last: bool,
)
    ensures
        tree_of(files).render_lines(prefix, is_last).len() == tree_chains_of(files).len(),
        forall|i: int|
            0 <= i < tree_chains_of(files).len() ==> line_shows(
                #[trigger] tree_of(files).render_lines(prefix, is_last)[i],
                tree_chains_of(files)[i].last(),
            ),
{
    let tree = tree_of(files);
    lemma_tree_of(files);
    lemma_lines_of_children(
        tree,
        prefix + crate::tree::continuation_glyph(is_last),
        Seq::empty(),
        tree.children.len(),
    );
    assert(tree.render_lines(prefix, is_last) =~= tree.render_children(
        prefix + crate::tree::continuation_glyph(is_last),
        tree.children.len(),
    ));
}

/// No line of the tree stands for an excluded directory or for anything
/// beneath one, and none for anything hidden: every chain of names with a
/// line begins a collected file, no name in it is hidden, no name above its
/// last is excluded, and its last is not excluded where it is a directory
/// above a collected file.
pub proof fn lemma_no_line_beneath_excluded(aggregator: Aggregator)
    requires
        aggregator.wf(),
    ensures
        forall|i: int|
            0 <= i < tree_chains_of(aggregator.included()).len() ==> begins_one_of(
                #[trigger] tree_chains_of(aggregator.included())[i],
                aggregator.included(),
            ) && !has_hidden(tree_chains_of(aggregator.included())[i]),
        forall|i: int, j: int|
            0 <= i < tree_chains_of(aggregator.included()).len() && 0 <= j < tree_chains_of(
                aggregator.included(),
            )[i].len() - 1 ==> !aggregator.config().excludes(
                #[trigger] tree_chains_of(aggregator.included())[i][j],
            ),
        forall|i: int, k: int|
            0 <= i < tree_chains_of(aggregator.included()).len() && 0 <= k
                < aggregator.included().len() && begins(
                #[trigger] tree_chains_of(aggregator.included())[i],
                #[trigger] aggregator.included()[k],
            ) && tree_chains_of(aggregator.included())[i].len() < aggregator.included()[k].len()
                ==> !aggregator.config().excludes(tree_chains_of(aggregator.included())[i].last()),
{
    let files = aggregator.included();
    let config = aggregator.config();
    let chains = tree_chains_of(files);
    lemma_lines_show_the_files(files);
    lemma_tree_of(files);
    lemma_nothing_hidden(aggregator);
    lemma_nothing_beneath_excluded(aggregator);
    assert forall|i: int| 0 <= i < chains.len() implies begins_one_of(#[trigger] chains[i], files)
        && !has_hidden(chains[i]) by {
        assert(chains.contains(chains[i]));
        assert(tree_of(files).has(chains[i]));
    }
    assert forall|i: int, j: int| 0 <= i < chains.len() && 0 <= j < chains[i].len() - 1 implies
        !config.excludes(#[trigger] chains[i][j]) by {
        assert(chains.contains(chains[i]));
        assert(tree_of(files).has(chains[i]));
    }
    assert forall|i: int, k: int|
        0 <= i < chains.len() && 0 <= k < files.len() && begins(
            #[trigger] chains[i],
            #[trigger] files[k],
        ) && chains[i].len() < files[k].len() implies !config.excludes(chains[i].last()) by {
        let at = chains[i].len() - 1;
        assert(chains[i][at] == files[k].subrange(0, chains[i].len() as int)[at]);
        assert(config.admits(files[k]));
        assert(!config.excludes(files[k][at]));
    }
}

} // verus!
