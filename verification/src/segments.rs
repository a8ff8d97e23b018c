//! The buffer read back: what comes of splitting it at its blank lines.
use vstd::prelude::*;
use crate::aggregate::{aggregate, block_of, Aggregator};
use crate::comment::comment_syntax;
use crate::filter::lowercase_extension_of;
use crate::paths::joined;

verus! {

/// Whether a blank line break, two line feeds in a row, begins at `i`.
pub open spec fn blank_at(text: Seq<char>, i: int) -> bool {
    0 <= i && i + 1 < text.len() && text[i] == '\n' && text[i + 1] == '\n'
}

/// The first position from `i` on at which a blank line break begins, or the
/// length of the text where there is none.
pub open spec fn first_blank_from(text: Seq<char>, i: int) -> int
    decreases text.len() - i,
{
    if i < 0 || i + 1 >= text.len() {
        text.len() as int
    } else if blank_at(text, i) {
        i
    } else {
        first_blank_from(text, i + 1)
    }
}

/// The segments of a text between its blank line breaks, found from the
/// left, one after the other. A text without one is a single segment.
pub open spec fn split_at_blanks(text: Seq<char>) -> Seq<Seq<char>>
    decreases text.len(),
{
    let at = first_blank_from(text, 0);
    if 0 <= at && at + 2 <= text.len() {
        seq![text.take(at)] + split_at_blanks(text.skip(at + 2))
    } else {
        seq![text]
    }
}

/// Whether a segment can be told from what follows it: it holds no blank
/// line break and does not end in a line feed.
pub open spec fn splits_cleanly(segment: Seq<char>) -> bool {
    &&& forall|i: int| !blank_at(segment, i)
    &&& segment.len() > 0 ==> segment.last() != '\n'
}

/// What a file shows in the buffer before the blank line that closes its
/// block: its header, a line break, and its content.
pub open spec fn body_of(path: Seq<Seq<char>>, content: Seq<char>, separator: Seq<char>) -> Seq<
    char,
> {
    comment_syntax(lowercase_extension_of(path.last())).header(joined(path, separator)) + "\n"@
        + content
}

/// The bodies of the given files, in order.
pub open spec fn bodies_of(
    files: Seq<Seq<Seq<char>>>,
    contents: Seq<Seq<char>>,
    separator: Seq<char>,
) -> Seq<Seq<char>> {
    Seq::new(files.len(), |i: int| body_of(files[i], contents[i], separator))
}

/// The closing blank line of a block is two line feeds.
proof fn lemma_blank_line()
    ensures
        "\n\n"@ == seq!['\n', '\n'],
{
    reveal_strlit("\n\n");
    assert("\n\n"@ =~= seq!['\n', '\n']);
}

proof fn lemma_first_blank_behind(segment: Seq<char>, rest: Seq<char>, i: int)
    requires
        splits_cleanly(segment),
        0 <= i <= segment.len(),
    ensures
        first_blank_from(segment + seq!['\n', '\n'] + rest, i) == segment.len(),
    decreases segment.len() - i,
{
    let text = segment + seq!['\n', '\n'] + rest;
    assert(text[segment.len() as int] == '\n');
    assert(text[segment.len() as int + 1] == '\n');
    if i < segment.len() {
        assert(!blank_at(text, i)) by {
            assert(!blank_at(segment, i));
            assert(text[i] == segment[i]);
            if i + 1 < segment.len() {
                assert(text[i + 1] == segment[i + 1]);
            }
        }
        lemma_first_blank_behind(segment, rest, i + 1);
    }
}

proof fn lemma_split_first_segment(segment: Seq<char>, rest: Seq<char>)
    requires
        splits_cleanly(segment),
    ensures
        split_at_blanks(segment + seq!['\n', '\n'] + rest) == seq![segment] + split_at_blanks(
            rest,
        ),
{
    let text = segment + seq!['\n', '\n'] + rest;
    lemma_first_blank_behind(segment, rest, 0);
    assert(text.take(segment.len() as int) =~= segment);
    assert(text.skip(segment.len() as int + 2) =~= rest);
}

/// The segments, each closed by a blank line, written one after the other.
pub open spec fn closed_and_joined(segments: Seq<Seq<char>>) -> Seq<char>
    decreases segments.len(),
{
    if segments.len() == 0 {
        Seq::empty()
    } else {
        closed_and_joined(segments.drop_last()) + segments.last() + seq!['\n', '\n']
    }
}

proof fn lemma_closed_and_joined_from_front(segments: Seq<Seq<char>>)
    requires
        segments.len() > 0,
    ensures
        closed_and_joined(segments) == segments.first() + seq!['\n', '\n'] + closed_and_joined(
            segments.drop_first(),
        ),
    decreases segments.len(),
{
    if segments.len() == 1 {
        assert(segments.drop_last() =~= Seq::<Seq<char>>::empty());
        assert(segments.drop_first() =~= Seq::<Seq<char>>::empty());
        assert(closed_and_joined(segments) =~= segments.first() + seq!['\n', '\n']
            + closed_and_joined(segments.drop_first()));
    } else {
        let front = segments.drop_last();
        lemma_closed_and_joined_from_front(front);
        assert(front.drop_first() =~= segments.drop_first().drop_last());
        assert(front.first() == segments.first());
        assert(segments.drop_first().last() == segments.last());
        assert(closed_and_joined(segments) =~= segments.first() + seq!['\n', '\n']
            + closed_and_joined(segments.drop_first()));
    }
}

/// Segments that split cleanly come back as they were when the text that
/// joins them is split, followed by the empty segment behind the last blank
/// line.
pub proof fn lemma_split_gives_segments_back(segments: Seq<Seq<char>>)
    requires
        forall|i: int| 0 <= i < segments.len() ==> splits_cleanly(#[trigger] segments[i]),
    ensures
        split_at_blanks(closed_and_joined(segments)) == segments.push(Seq::empty()),
    decreases segments.len(),
{
    if segments.len() == 0 {
        assert(split_at_blanks(Seq::<char>::empty()) =~= segments.push(Seq::empty()));
    } else {
        let rest = segments.drop_first();
        lemma_closed_and_joined_from_front(segments);
        assert forall|i: int| 0 <= i < rest.len() implies splits_cleanly(#[trigger] rest[i]) by {
            assert(rest[i] == segments[i + 1]);
        }
        lemma_split_gives_segments_back(rest);
        lemma_split_first_segment(segments.first(), closed_and_joined(rest));
        assert(seq![segments.first()] + rest.push(Seq::empty()) =~= segments.push(Seq::empty()));
    }
}

proof fn lemma_aggregate_is_closed_and_joined(
    files: Seq<Seq<Seq<char>>>,
    contents: Seq<Seq<char>>,
    separator: Seq<char>,
)
    requires
        contents.len() == files.len(),
    ensures
        aggregate(files, contents, separator) == closed_and_joined(
            bodies_of(files, contents, separator),
        ),
    decreases files.len(),
{
    if files.len() > 0 {
        lemma_aggregate_is_closed_and_joined(files.drop_last(), contents.drop_last(), separator);
        lemma_blank_line();
        assert(bodies_of(files, contents, separator).drop_last() =~= bodies_of(
            files.drop_last(),
            contents.drop_last(),
            separator,
        ));
        assert(block_of(files.last(), contents.last(), separator) =~= body_of(
            files.last(),
            contents.last(),
            separator,
        ) + seq!['\n', '\n']);
        assert(aggregate(files, contents, separator) =~= closed_and_joined(
            bodies_of(files, contents, separator),
        ));
    }
}

/// Split at its blank lines, the buffer gives one segment for each
/// collected file, in order, and the empty segment behind the last blank
/// line. The segment of a file is its header, a line break and its content.
/// This holds where every such segment splits cleanly; a content that holds
/// a blank line or ends in a line feed is cut apart by the split.
pub proof fn lemma_buffer_splits_into_files(aggregator: Aggregator)
    requires
        aggregator.wf(),
        forall|i: int|
            0 <= i < aggregator.included().len() ==> splits_cleanly(
                #[trigger] body_of(
                    aggregator.included()[i],
                    aggregator.contents()[i],
                    aggregator.separator(),
                ),
            ),
    ensures
        split_at_blanks(aggregator.buffer()) == bodies_of(
            aggregator.included(),
            aggregator.contents(),
            aggregator.separator(),
        ).push(Seq::empty()),
        split_at_blanks(aggregator.buffer()).len() == aggregator.included().len() + 1,
{
    let bodies = bodies_of(aggregator.included(), aggregator.contents(), aggregator.separator());
    lemma_aggregate_is_closed_and_joined(
        aggregator.included(),
        aggregator.contents(),
        aggregator.separator(),
    );
    assert forall|i: int| 0 <= i < bodies.len() implies splits_cleanly(#[trigger] bodies[i]) by {
        assert(bodies[i] == body_of(
            aggregator.included()[i],
            aggregator.contents()[i],
            aggregator.separator(),
        ));
    }
    lemma_split_gives_segments_back(bodies);
}

} // verus!
