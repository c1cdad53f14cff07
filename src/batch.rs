use vstd::prelude::*;
use vstd::utf8::{decode_utf8, valid_utf8};

use crate::command::{
    git_pull, git_pull_line, opt_view, woff2_compress, woff2_line, CommandLine, Invocation,
};
use crate::reorder::{keep_map, lemma_keep_map_len, lemma_keep_map_reorder};
use crate::scan::{select, selected, DirectoryEntry, Selection};

verus! {

broadcast use vstd::seq_lib::group_to_multiset_ensures;

/// Why the directory of a batch run could not be scanned.
#[derive(Clone, Copy, Debug, PartialEq, Eq, Structural)]
pub enum ScanError {
    Missing,
    NotADirectory,
    Unreadable,
}

/// Why a batch run stopped.
#[derive(Clone, Copy, Debug, PartialEq, Eq, Structural)]
pub enum BatchError {
    /// The directory could not be scanned; nothing was run.
    Scan(ScanError),
    /// An external program could not be started.
    Spawn,
    /// An external program wrote output that is not UTF-8.
    Encoding,
}

/// What came of running the external program for one item.
#[derive(Clone, Debug)]
pub enum Outcome {
    /// It ran, and wrote these bytes to its standard output.
    Ran(Vec<u8>),
    /// It could not be started.
    SpawnFailed,
}

/// One finished item: its index among the matched paths, and its output
/// (`None`: the program could not be started).
pub struct Event {
    pub index: nat,
    pub output: Option<Seq<u8>>,
}

/// What a batch run has printed, and why it stopped, if it did.
pub struct RunState {
    pub blocks: Seq<Seq<char>>,
    pub failure: Option<BatchError>,
}

pub open spec fn outcome_view(o: Outcome) -> Option<Seq<u8>> {
    match o {
        Outcome::Ran(b) => Some(b@),
        Outcome::SpawnFailed => None,
    }
}

/// The program run for the matched path `path`.
pub open spec fn item_line(sel: Selection, path: Seq<char>) -> CommandLine {
    match sel {
        Selection::GitRepos => git_pull_line(path),
        Selection::TtfFiles => woff2_line(path),
    }
}

/// The block printed for the item at `path` whose program wrote `out`;
/// `None` where `out` must be text and is not.
pub open spec fn block_text(sel: Selection, path: Seq<char>, out: Seq<u8>) -> Option<Seq<char>> {
    match sel {
        Selection::GitRepos => if valid_utf8(out) {
            Some("Updating "@ + path + "\n"@ + decode_utf8(out) + "\n"@)
        } else {
            None
        },
        Selection::TtfFiles => Some("Converted file "@ + path + "\n"@),
    }
}

/// The block that a finished item prints, if it prints one.
pub open spec fn event_block(sel: Selection, paths: Seq<Seq<char>>) -> spec_fn(Event) -> Option<Seq<char>> {
    |ev: Event|
        match ev.output {
            Some(out) => block_text(sel, paths[ev.index as int], out),
            None => None,
        }
}

/// The run after one more item finished. Once stopped, a run takes no more.
pub open spec fn step(sel: Selection, paths: Seq<Seq<char>>, s: RunState, ev: Event) -> RunState {
    if s.failure is Some {
        s
    } else {
        match ev.output {
            None => RunState { blocks: s.blocks, failure: Some(BatchError::Spawn) },
            Some(out) => match block_text(sel, paths[ev.index as int], out) {
                Some(b) => RunState { blocks: s.blocks.push(b), failure: None },
                None => RunState { blocks: s.blocks, failure: Some(BatchError::Encoding) },
            },
        }
    }
}

/// The run after the items of `evs` finished, in that order.
pub open spec fn run(sel: Selection, paths: Seq<Seq<char>>, s: RunState, evs: Seq<Event>) -> RunState
    decreases evs.len(),
{
    if evs.len() == 0 {
        s
    } else {
        step(sel, paths, run(sel, paths, s, evs.drop_last()), evs.last())
    }
}

/// A run that has printed nothing and has not stopped.
pub open spec fn fresh() -> RunState {
    RunState { blocks: seq![], failure: None }
}

/// Relies on `String::from_utf8`: it succeeds exactly on valid UTF-8, with the
/// characters that the bytes encode.
#[verifier::external_body]
fn text_of(bytes: Vec<u8>) -> (r: Option<String>)
    ensures
        r is Some <==> valid_utf8(bytes@),
        r matches Some(s) ==> s@ == decode_utf8(bytes@),
{
    String::from_utf8(bytes).ok()
}

/// The block printed for the item at `path` whose program wrote `out`.
pub fn item_block(sel: Selection, path: &str, out: Vec<u8>) -> (r: Option<String>)
    ensures
        opt_view(r) == block_text(sel, path@, out@),
{
    match sel {
        Selection::GitRepos => match text_of(out) {
            Some(text) => {
                let mut b = String::from_str("Updating ");
                b.append(path);
                b.append("\n");
                b.append(text.as_str());
                b.append("\n");
                Some(b)
            },
            None => None,
        },
        Selection::TtfFiles => {
            let mut b = String::from_str("Converted file ");
            b.append(path);
            b.append("\n");
            Some(b)
        },
    }
}

/// A batch run over the matched items of one scanned directory: it hands
/// out the program to run for each item, takes back what came of it, and
/// decides what is printed and when the run stops.
pub struct BatchRun {
    selection: Selection,
    paths: Vec<String>,
    blocks: Vec<String>,
    failure: Option<BatchError>,
}

impl BatchRun {
    pub closed spec fn selection(&self) -> Selection {
        self.selection
    }

    /// The matched paths, in scan order.
    pub closed spec fn paths(&self) -> Seq<Seq<char>> {
        self.paths@.map_values(|p: String| p@)
    }

    /// What has been printed, and whether the run stopped.
    pub closed spec fn state(&self) -> RunState {
        RunState { blocks: self.blocks@.map_values(|b: String| b@), failure: self.failure }
    }

    /// Starts a batch run over the entries that `sel` picks from the outcome
    /// of a scan. A failed scan fails the run before any program is run.
    pub fn new(sel: Selection, scan: Result<Vec<DirectoryEntry>, ScanError>) -> (r: Result<BatchRun, BatchError>)
        ensures
            match scan {
                Err(e) => r == Err::<BatchRun, BatchError>(BatchError::Scan(e)),
                Ok(entries) => r matches Ok(b) && b.selection() == sel && b.paths() == selected(entries@, sel)
                    && b.state() == fresh(),
            },
    {
        match scan {
            Err(e) => Err(BatchError::Scan(e)),
            Ok(entries) => {
                let paths = select(&entries, sel);
                let b = BatchRun { selection: sel, paths, blocks: Vec::new(), failure: None };
                assert(b.state().blocks =~= Seq::<Seq<char>>::empty());
                Ok(b)
            },
        }
    }

    /// The number of matched items.
    pub fn len(&self) -> (r: usize)
        ensures
            r == self.paths().len(),
    {
        self.paths.len()
    }

    /// Whether another item may be started: only while the run has not
    /// stopped.
    pub fn may_start(&self) -> (r: bool)
        ensures
            r == (self.state().failure is None),
    {
        self.failure.is_none()
    }

    /// The program to run for the item at `index`.
    pub fn invocation(&self, index: usize) -> (r: Invocation)
        requires
            index < self.paths().len(),
        ensures
            r@ == item_line(self.selection(), self.paths()[index as int]),
    {
        let path = self.paths[index].as_str();
        match self.selection {
            Selection::GitRepos => git_pull(path),
            Selection::TtfFiles => woff2_compress(path),
        }
    }

    /// Takes what came of the item at `index`, and returns the block to
    /// print for it, if any. A program that could not be started, or output
    /// that must be text and is not, stops the run; a stopped run takes no
    /// more items.
    pub fn record(&mut self, index: usize, outcome: Outcome) -> (r: Option<String>)
        requires
            index < old(self).paths().len(),
        ensures
            final(self).selection() == old(self).selection(),
            final(self).paths() == old(self).paths(),
            final(self).state() == step(
                old(self).selection(),
                old(self).paths(),
                old(self).state(),
                Event { index: index as nat, output: outcome_view(outcome) },
            ),
            final(self).state().blocks.len() == old(self).state().blocks.len() + (if r is Some { 1int } else { 0 }),
            r matches Some(b) ==> b@ == final(self).state().blocks.last(),
    {
        if self.failure.is_some() {
            return None;
        }
        match outcome {
            Outcome::SpawnFailed => {
                self.failure = Some(BatchError::Spawn);
                None
            },
            Outcome::Ran(out) => {
                let ghost blocks0 = self.blocks@;
                match item_block(self.selection, self.paths[index].as_str(), out) {
                    Some(b) => {
                        self.blocks.push(b.clone());
                        assert(self.blocks@.map_values(|x: String| x@)
                            =~= blocks0.map_values(|x: String| x@).push(b@));
                        Some(b)
                    },
                    None => {
                        self.failure = Some(BatchError::Encoding);
                        None
                    },
                }
            },
        }
    }

    /// How the run ended: the number of blocks printed, or why it stopped.
    pub fn finish(self) -> (r: Result<usize, BatchError>)
        ensures
            match self.state().failure {
                Some(e) => r == Err::<usize, BatchError>(e),
                None => r == Ok::<usize, BatchError>(self.state().blocks.len() as usize),
            },
    {
        match self.failure {
            Some(e) => Err(e),
            None => Ok(self.blocks.len()),
        }
    }
}

/// A stopped run stays as it is, whatever finishes after.
pub proof fn lemma_stopped_run_stays(sel: Selection, paths: Seq<Seq<char>>, t: RunState, evs: Seq<Event>)
    requires
        t.failure is Some,
    ensures
        run(sel, paths, t, evs) == t,
    decreases evs.len(),
{
    if evs.len() > 0 {
        lemma_stopped_run_stays(sel, paths, t, evs.drop_last());
    }
}

/// Running two stretches of finished items is running the first, then the
/// second.
pub proof fn lemma_run_append(sel: Selection, paths: Seq<Seq<char>>, s: RunState, x: Seq<Event>, y: Seq<Event>)
    ensures
        run(sel, paths, s, x + y) == run(sel, paths, run(sel, paths, s, x), y),
    decreases y.len(),
{
    if y.len() == 0 {
        assert(x + y =~= x);
    } else {
        assert((x + y).drop_last() =~= x + y.drop_last());
        assert((x + y).last() == y.last());
        lemma_run_append(sel, paths, s, x, y.drop_last());
    }
}

/// A program that cannot be started stops the run: what was printed before
/// stays, the run fails with `Spawn`, and no item that finishes after it
/// prints anything or changes the outcome.
pub proof fn lemma_spawn_failure_halts(
    sel: Selection,
    paths: Seq<Seq<char>>,
    s: RunState,
    before: Seq<Event>,
    failed: Event,
    after: Seq<Event>,
)
    requires
        failed.output is None,
        run(sel, paths, s, before).failure is None,
    ensures
        run(sel, paths, s, before.push(failed) + after) == (RunState {
            blocks: run(sel, paths, s, before).blocks,
            failure: Some(BatchError::Spawn),
        }),
{
    let mid = step(sel, paths, run(sel, paths, s, before), failed);
    assert(before.push(failed).drop_last() =~= before);
    lemma_run_append(sel, paths, s, before.push(failed), after);
    lemma_stopped_run_stays(sel, paths, mid, after);
}

/// Where every item ran and printed, the run prints their blocks in the
/// order in which they finished, and does not stop.
pub proof fn lemma_all_printed(sel: Selection, paths: Seq<Seq<char>>, evs: Seq<Event>)
    requires
        forall|i: int| 0 <= i < evs.len() ==> (#[trigger] event_block(sel, paths)(evs[i])) is Some,
    ensures
        run(sel, paths, fresh(), evs) == (RunState { blocks: keep_map(evs, event_block(sel, paths)), failure: None }),
    decreases evs.len(),
{
    if evs.len() > 0 {
        let t = evs.drop_last();
        assert forall|i: int| 0 <= i < t.len() implies (#[trigger] event_block(sel, paths)(t[i])) is Some by {
            assert(t[i] == evs[i]);
        }
        lemma_all_printed(sel, paths, t);
        assert(event_block(sel, paths)(evs[evs.len() - 1]) is Some);
    }
}

/// Where `k` items ran and printed, the run prints exactly `k` blocks, one
/// for each item and each whole, and whatever order they finished in, the
/// same blocks are printed, as often.
pub proof fn lemma_one_block_per_item(sel: Selection, paths: Seq<Seq<char>>, a: Seq<Event>, b: Seq<Event>)
    requires
        forall|i: int| 0 <= i < a.len() ==> (#[trigger] event_block(sel, paths)(a[i])) is Some,
        a.to_multiset() == b.to_multiset(),
    ensures
        run(sel, paths, fresh(), a).failure is None,
        run(sel, paths, fresh(), a).blocks.len() == a.len(),
        run(sel, paths, fresh(), a).blocks.to_multiset() == run(sel, paths, fresh(), b).blocks.to_multiset(),
{
    assert forall|i: int| 0 <= i < b.len() implies (#[trigger] event_block(sel, paths)(b[i])) is Some by {
        assert(b.contains(b[i]));
        assert(b.to_multiset().count(b[i]) > 0);
        assert(a.contains(b[i]));
    }
    lemma_all_printed(sel, paths, a);
    lemma_all_printed(sel, paths, b);
    lemma_keep_map_reorder(a, b, event_block(sel, paths));
    lemma_keep_map_len(a, event_block(sel, paths));
}

} // verus!
