//! The driver: the stages of a run, the run over a list of offered files,
//! and what a finished run hands to the clipboard and the screen.
use vstd::prelude::*;
use vstd::string::StringExecFns;
use crate::aggregate::{
    aggregate, content_of, disposition_of, Aggregator, Disposition, FileRead,
};
use crate::filter::{FilterConfig, FilterConfigView};
use crate::text::{text_lists, texts};
use crate::tree::TreeNode;
use crate::tree_laws::tree_of;

verus! {

/// Where a run stands.
#[derive(Clone, Copy, Debug, PartialEq, Eq)]
pub enum Stage {
    /// The configuration is read and the traversal is set up.
    Init,
    /// The traversal looks for the next entry.
    Walking,
    /// The entry that the traversal found is read and taken into the buffer.
    Aggregating,
    /// The tree is built from the collected paths.
    TreeBuilding,
    /// The tree is rendered.
    Rendering,
    /// The buffer is handed to the clipboard.
    Publishing,
    /// The run is complete.
    Done,
    /// The run was given up.
    Failed,
}

/// What can happen in a run.
#[derive(Clone, Copy, Debug, PartialEq, Eq)]
pub enum Event {
    /// The traversal is set up.
    Ready,
    /// The traversal found an entry.
    EntryFound,
    /// The entry was dealt with: collected, or passed over for a reason of
    /// its own.
    EntryHandled,
    /// The traversal has no more entries.
    WalkFinished,
    /// The tree is built.
    TreeBuilt,
    /// The tree is rendered.
    TreeRendered,
    /// The clipboard holds the buffer.
    Published,
    /// Something went wrong that the run cannot pass over: the set-up, the
    /// traversal itself, or the clipboard.
    Fatal,
}

/// The stage that follows `stage` on `event`. A run goes through its stages
/// in one order, and alternates between walking and aggregating while the
/// traversal lasts. A fatal event, or one that has no place at the stage,
/// fails the run. A run that is done or has failed stays so.
pub open spec fn next_stage(stage: Stage, event: Event) -> Stage {
    match (stage, event) {
        (Stage::Done, _) => Stage::Done,
        (Stage::Init, Event::Ready) => Stage::Walking,
        (Stage::Walking, Event::EntryFound) => Stage::Aggregating,
        (Stage::Aggregating, Event::EntryHandled) => Stage::Walking,
        (Stage::Walking, Event::WalkFinished) => Stage::TreeBuilding,
        (Stage::TreeBuilding, Event::TreeBuilt) => Stage::Rendering,
        (Stage::Rendering, Event::TreeRendered) => Stage::Publishing,
        (Stage::Publishing, Event::Published) => Stage::Done,
        _ => Stage::Failed,
    }
}

/// How far a run has come. Walking and aggregating are one phase.
pub open spec fn progress(stage: Stage) -> int {
    match stage {
        Stage::Init => 0,
        Stage::Walking => 1,
        Stage::Aggregating => 1,
        Stage::TreeBuilding => 2,
        Stage::Rendering => 3,
        Stage::Publishing => 4,
        Stage::Done => 5,
        Stage::Failed => 5,
    }
}

/// The exit code of a run that ended at `stage`: zero where it is done.
pub open spec fn exit_code_of(stage: Stage) -> u8 {
    if stage == Stage::Done {
        0
    } else {
        1
    }
}

/// Moves a run on.
pub fn advance(stage: Stage, event: Event) -> (next: Stage)
    ensures
        next == next_stage(stage, event),
{
    match (stage, event) {
        (Stage::Done, _) => Stage::Done,
        (Stage::Init, Event::Ready) => Stage::Walking,
        (Stage::Walking, Event::EntryFound) => Stage::Aggregating,
        (Stage::Aggregating, Event::EntryHandled) => Stage::Walking,
        (Stage::Walking, Event::WalkFinished) => Stage::TreeBuilding,
        (Stage::TreeBuilding, Event::TreeBuilt) => Stage::Rendering,
        (Stage::Rendering, Event::TreeRendered) => Stage::Publishing,
        (Stage::Publishing, Event::Published) => Stage::Done,
        _ => Stage::Failed,
    }
}

/// The exit code of a run that ended at `stage`.
pub fn exit_code(stage: Stage) -> (code: u8)
    ensures
        code == exit_code_of(stage),
{
    match stage {
        Stage::Done => 0,
        _ => 1,
    }
}

/// A run never goes back: no event takes it to an earlier phase, a run that
/// is done or has failed stays so, and only a run that went through every
/// stage is done.
pub proof fn lemma_stages_go_forward(stage: Stage, event: Event)
    ensures
        progress(next_stage(stage, event)) >= progress(stage),
        stage == Stage::Done || stage == Stage::Failed ==> next_stage(stage, event) == stage,
        next_stage(stage, event) == Stage::Done ==> stage == Stage::Done || (stage
            == Stage::Publishing && event == Event::Published),
        event == Event::Fatal && stage != Stage::Done ==> next_stage(stage, event)
            == Stage::Failed,
{
}

/// A file that the traversal offers: its path below the scan root and what
/// came of reading it.
#[derive(Debug)]
pub struct Offer {
    /// The components of the file's path below the scan root.
    pub path: Vec<String>,
    /// What came of reading the file.
    pub read: FileRead,
}

/// The paths of the offered files that are collected, in order.
pub open spec fn collected_files(config: FilterConfigView, offers: Seq<Offer>) -> Seq<
    Seq<Seq<char>>,
>
    decreases offers.len(),
{
    if offers.len() == 0 {
        Seq::empty()
    } else {
        let earlier = collected_files(config, offers.drop_last());
        let offer = offers.last();
        if disposition_of(config, texts(offer.path@), offer.read) is Included {
            earlier.push(texts(offer.path@))
        } else {
            earlier
        }
    }
}

/// The contents of the offered files that are collected, in order.
pub open spec fn collected_contents(config: FilterConfigView, offers: Seq<Offer>) -> Seq<
    Seq<char>,
>
    decreases offers.len(),
{
    if offers.len() == 0 {
        Seq::empty()
    } else {
        let earlier = collected_contents(config, offers.drop_last());
        let offer = offers.last();
        if disposition_of(config, texts(offer.path@), offer.read) is Included {
            earlier.push(content_of(offer.read))
        } else {
            earlier
        }
    }
}

/// What becomes of each offered file, in order.
pub open spec fn dispositions_of(config: FilterConfigView, offers: Seq<Offer>) -> Seq<
    Disposition,
> {
    Seq::new(
        offers.len(),
        |i: int| disposition_of(config, texts(offers[i].path@), offers[i].read),
    )
}

/// The lines of the tree of the given files. The root is not shown, and its
/// children begin their lines without indentation.
pub open spec fn tree_lines_of(files: Seq<Seq<Seq<char>>>) -> Seq<Seq<char>> {
    tree_of(files).render_children(Seq::empty(), tree_of(files).children.len())
}

/// Builds the tree of the given files under a nameless root.
pub fn build_tree(files: &Vec<Vec<String>>) -> (root: TreeNode)
    ensures
        root.wf(),
        root@ == tree_of(text_lists(files@)),
{
    let mut root = TreeNode::new(String::new());
    let mut i: usize = 0;
    while i < files.len()
        invariant
            i <= files.len(),
            root.wf(),
            root@ == tree_of(text_lists(files@).take(i as int)),
        decreases files.len() - i,
    {
        root.add_path(files[i].as_slice());
        assert(text_lists(files@).take(i + 1).drop_last() =~= text_lists(files@).take(i as int));
        assert(text_lists(files@).take(i + 1).last() == texts(files@[i as int]@));
        i = i + 1;
    }
    assert(text_lists(files@).take(i as int) =~= text_lists(files@));
    root
}

/// What a run hands on when the traversal is over.
#[derive(Debug)]
pub struct Report {
    /// The aggregate buffer, for the clipboard.
    pub buffer: String,
    /// The paths of the collected files, in the order in which they came.
    pub files: Vec<Vec<String>>,
    /// The lines of the tree of the collected files.
    pub tree_lines: Vec<String>,
}

/// Closes the aggregation: builds the tree of the collected files, renders
/// it, and hands out the buffer with it.
pub fn summarize(aggregator: Aggregator) -> (report: Report)
    ensures
        report.buffer@ == aggregator.buffer(),
        text_lists(report.files@) == aggregator.included(),
        texts(report.tree_lines@) == tree_lines_of(aggregator.included()),
{
    let (buffer, files) = aggregator.into_parts();
    let root = build_tree(&files);
    let tree_lines = root.render_children("");
    proof {
        reveal_strlit("");
        assert(""@ =~= Seq::<char>::empty());
    }
    Report { buffer, files, tree_lines }
}

/// Runs the aggregation over a list of offered files, in order, and closes
/// it. The result depends on the arguments alone: the same configuration
/// and the same offers give the same buffer, the same files and the same
/// tree.
pub fn collect(config: FilterConfig, separator: &str, offers: Vec<Offer>) -> (outcome: (
    Report,
    Vec<Disposition>,
))
    ensures
        outcome.1@ == dispositions_of(config@, offers@),
        text_lists(outcome.0.files@) == collected_files(config@, offers@),
        outcome.0.buffer@ == aggregate(
            collected_files(config@, offers@),
            collected_contents(config@, offers@),
            separator@,
        ),
        texts(outcome.0.tree_lines@) == tree_lines_of(collected_files(config@, offers@)),
{
    let ghost cfg = config@;
    let ghost all = offers@;
    let mut aggregator = Aggregator::new(config, separator);
    let mut dispositions: Vec<Disposition> = Vec::new();
    for offer in it: offers
        invariant
            it.seq() == all,
            aggregator.wf(),
            aggregator.config() == cfg,
            aggregator.separator() == separator@,
            aggregator.included() == collected_files(cfg, all.take(it.index() as int)),
            aggregator.contents() == collected_contents(cfg, all.take(it.index() as int)),
            dispositions@ == dispositions_of(cfg, all.take(it.index() as int)),
    {
        let ghost n = it.index() as int;
        assert(all.take(n + 1).drop_last() =~= all.take(n));
        assert(all.take(n + 1).last() == offer);
        let Offer { path, read } = offer;
        let disposition = aggregator.absorb(path, read);
        dispositions.push(disposition);
        assert(dispositions@ =~= dispositions_of(cfg, all.take(n + 1)));
    }
    assert(all.take(all.len() as int) =~= all);
    let report = summarize(aggregator);
    (report, dispositions)
}

/// The line that opens the output of a run.
pub fn processing_line(directory: &str) -> (line: String)
    ensures
        line@ == "Processing directory: "@ + directory@,
{
    let mut line = String::from_str("Processing directory: ");
    line.append(directory);
    line
}

/// The line that stands above the tree.
pub fn tree_heading() -> (line: &'static str)
    ensures
        line@ == "Copied Files Tree:"@,
{
    "Copied Files Tree:"
}

/// The line that confirms that the clipboard holds the buffer.
pub fn confirmation_line() -> (line: &'static str)
    ensures
        line@ == "Code buffer has been copied to the clipboard."@,
{
    "Code buffer has been copied to the clipboard."
}

} // verus!
