//! The life of one clip, from its discovery to the removal of its
//! temporary files, as a state machine. The caller performs the action that
//! the state asks for and reports how it went; the machine decides what
//! comes next.

use vstd::prelude::*;
use crate::error::ExportError;
use crate::listing::located;

verus! {

/// The steps of the pipeline that can fail.
#[derive(Clone, Copy, Debug, PartialEq, Eq, Structural)]
pub enum Stage {
    /// Finding the segment directory.
    Locate,
    /// Assembling the two streams.
    Assemble,
    /// Deriving the name of the output file.
    Name,
    /// Muxing the streams into the output file.
    Mux,
}

/// How a clip ended.
#[derive(Clone, Copy, Debug, PartialEq, Eq, Structural)]
pub enum Outcome {
    /// The output file was written.
    Completed,
    /// The clip has no segments to export.
    SkippedNoSegments,
    /// A step failed.
    Failed(Stage),
}

/// Where a clip stands.
#[derive(Clone, Copy, Debug, PartialEq, Eq, Structural)]
pub enum ClipState {
    /// The clip directory is known; nothing has been done.
    Discovered,
    /// The segment directory was found.
    Located,
    /// Both streams were assembled into temporary files.
    Assembled,
    /// The name of the output file is known.
    Named,
    /// The output file was written.
    Muxed,
    /// There is nothing to export; the temporary files are still to be
    /// removed.
    Skipped,
    /// A step failed; the temporary files are still to be removed.
    Failed(Stage),
    /// The temporary files were removed: the clip is finished.
    Cleaned(Outcome),
}

/// What the caller is to do for a clip.
#[derive(Clone, Copy, Debug, PartialEq, Eq, Structural)]
pub enum Action {
    /// Find the segment directory.
    Locate,
    /// Assemble the two streams into the temporary files.
    Assemble,
    /// Derive the name of the output file.
    Name,
    /// Mux the temporary files into the output file.
    Mux,
    /// Remove the temporary files.
    Cleanup,
    /// Nothing: go on to the next clip.
    Finish,
}

/// How an action went.
#[derive(Clone, Copy, Debug, PartialEq, Eq, Structural)]
pub enum StepResult {
    /// It did what it was to do.
    Done,
    /// It found that the clip has no segments.
    Missing,
    /// It failed.
    Failed,
}

/// The action that a state asks for.
pub open spec fn pending(state: ClipState) -> Action {
    match state {
        ClipState::Discovered => Action::Locate,
        ClipState::Located => Action::Assemble,
        ClipState::Assembled => Action::Name,
        ClipState::Named => Action::Mux,
        ClipState::Muxed => Action::Cleanup,
        ClipState::Skipped => Action::Cleanup,
        ClipState::Failed(_) => Action::Cleanup,
        ClipState::Cleaned(_) => Action::Finish,
    }
}

/// The state that follows when the pending action of `state` went as
/// `result` says. Locating and assembling may find that there is nothing to
/// export, which skips the clip; any other shortfall of a step fails the
/// clip at that step. Whatever happened, the temporary files are removed
/// next, and how the removal itself went changes nothing.
pub open spec fn next_state(state: ClipState, result: StepResult) -> ClipState {
    match state {
        ClipState::Discovered => match result {
            StepResult::Done => ClipState::Located,
            StepResult::Missing => ClipState::Skipped,
            StepResult::Failed => ClipState::Failed(Stage::Locate),
        },
        ClipState::Located => match result {
            StepResult::Done => ClipState::Assembled,
            StepResult::Missing => ClipState::Skipped,
            StepResult::Failed => ClipState::Failed(Stage::Assemble),
        },
        ClipState::Assembled => match result {
            StepResult::Done => ClipState::Named,
            _ => ClipState::Failed(Stage::Name),
        },
        ClipState::Named => match result {
            StepResult::Done => ClipState::Muxed,
            _ => ClipState::Failed(Stage::Mux),
        },
        ClipState::Muxed => ClipState::Cleaned(Outcome::Completed),
        ClipState::Skipped => ClipState::Cleaned(Outcome::SkippedNoSegments),
        ClipState::Failed(stage) => ClipState::Cleaned(Outcome::Failed(stage)),
        ClipState::Cleaned(outcome) => ClipState::Cleaned(outcome),
    }
}

/// The state of a clip after its actions went as `results` say, the first
/// action first.
pub open spec fn state_after(results: Seq<StepResult>) -> ClipState
    decreases results.len(),
{
    if results.len() == 0 {
        ClipState::Discovered
    } else {
        next_state(state_after(results.drop_last()), results.last())
    }
}

/// The number of actions that a clip in `state` still needs at most.
pub open spec fn steps_left(state: ClipState) -> nat {
    match state {
        ClipState::Discovered => 5,
        ClipState::Located => 4,
        ClipState::Assembled => 3,
        ClipState::Named => 2,
        ClipState::Muxed => 1,
        ClipState::Skipped => 1,
        ClipState::Failed(_) => 1,
        ClipState::Cleaned(_) => 0,
    }
}

/// The action writes files: the temporary stream files or the output file.
pub open spec fn writes_files(action: Action) -> bool {
    action == Action::Assemble || action == Action::Mux
}

/// What the failure of an action means for the clip: missing segments skip
/// it, everything else fails it.
pub open spec fn result_of_error(error: ExportError) -> StepResult {
    match error {
        ExportError::SegmentsNotFound => StepResult::Missing,
        _ => StepResult::Failed,
    }
}

impl ClipState {
    /// The state of a clip that was just discovered.
    pub fn begin() -> (state: ClipState)
        ensures
            state == ClipState::Discovered,
    {
        ClipState::Discovered
    }

    /// The action to perform now.
    pub fn action(&self) -> (action: Action)
        ensures
            action == pending(*self),
    {
        match self {
            ClipState::Discovered => Action::Locate,
            ClipState::Located => Action::Assemble,
            ClipState::Assembled => Action::Name,
            ClipState::Named => Action::Mux,
            ClipState::Muxed => Action::Cleanup,
            ClipState::Skipped => Action::Cleanup,
            ClipState::Failed(_) => Action::Cleanup,
            ClipState::Cleaned(_) => Action::Finish,
        }
    }

    /// The state after the pending action went as `result` says.
    pub fn advance(self, result: StepResult) -> (state: ClipState)
        ensures
            state == next_state(self, result),
    {
        match self {
            ClipState::Discovered => match result {
                StepResult::Done => ClipState::Located,
                StepResult::Missing => ClipState::Skipped,
                StepResult::Failed => ClipState::Failed(Stage::Locate),
            },
            ClipState::Located => match result {
                StepResult::Done => ClipState::Assembled,
                StepResult::Missing => ClipState::Skipped,
                StepResult::Failed => ClipState::Failed(Stage::Assemble),
            },
            ClipState::Assembled => match result {
                StepResult::Done => ClipState::Named,
                _ => ClipState::Failed(Stage::Name),
            },
            ClipState::Named => match result {
                StepResult::Done => ClipState::Muxed,
                _ => ClipState::Failed(Stage::Mux),
            },
            ClipState::Muxed => ClipState::Cleaned(Outcome::Completed),
            ClipState::Skipped => ClipState::Cleaned(Outcome::SkippedNoSegments),
            ClipState::Failed(stage) => ClipState::Cleaned(Outcome::Failed(stage)),
            ClipState::Cleaned(outcome) => ClipState::Cleaned(outcome),
        }
    }

    /// How the clip ended, once it is finished.
    pub fn outcome(&self) -> (outcome: Option<Outcome>)
        ensures
            outcome == match *self {
                ClipState::Cleaned(o) => Some(o),
                _ => None,
            },
    {
        match self {
            ClipState::Cleaned(o) => Some(*o),
            _ => None,
        }
    }
}

/// How the action went that came back with `outcome`.
pub fn step_result<T>(outcome: &Result<T, ExportError>) -> (result: StepResult)
    ensures
        result == match *outcome {
            Ok(_) => StepResult::Done,
            Err(error) => result_of_error(error),
        },
{
    match outcome {
        Ok(_) => StepResult::Done,
        Err(ExportError::SegmentsNotFound) => StepResult::Missing,
        Err(_) => StepResult::Failed,
    }
}

/// How many clips of a run ended in which way.
#[derive(Clone, Copy, Debug, PartialEq, Eq, Structural)]
pub struct RunSummary {
    /// Clips whose output file was written.
    pub completed: usize,
    /// Clips without segments.
    pub skipped: usize,
    /// Clips that failed at some step.
    pub failed: usize,
}

/// The number of outcomes among `outcomes` that `wanted` accepts.
pub open spec fn count_of(outcomes: Seq<Outcome>, wanted: spec_fn(Outcome) -> bool) -> nat {
    outcomes.filter(wanted).len()
}

/// The summary of a run whose clips ended as `outcomes` say.
pub open spec fn summary_of(outcomes: Seq<Outcome>) -> (nat, nat, nat) {
    (
        count_of(outcomes, |o: Outcome| o == Outcome::Completed),
        count_of(outcomes, |o: Outcome| o == Outcome::SkippedNoSegments),
        count_of(outcomes, |o: Outcome| o is Failed),
    )
}

/// Counts how the clips of a run ended. Every clip is counted once.
pub fn summarize(outcomes: &Vec<Outcome>) -> (summary: RunSummary)
    ensures
        (summary.completed as nat, summary.skipped as nat, summary.failed as nat) == summary_of(
            outcomes@,
        ),
        summary.completed + summary.skipped + summary.failed == outcomes.len(),
{
    let mut summary = RunSummary { completed: 0, skipped: 0, failed: 0 };
    let n: usize = outcomes.len();
    let mut i: usize = 0;
    proof {
        reveal(Seq::filter);
        assert(outcomes@.take(0) =~= Seq::<Outcome>::empty());
    }
    while i < n
        invariant
            i <= n,
            n == outcomes.len(),
            (summary.completed as nat, summary.skipped as nat, summary.failed as nat)
                == summary_of(outcomes@.take(i as int)),
            summary.completed + summary.skipped + summary.failed == i,
        decreases n - i,
    {
        proof {
            let head = outcomes@.take(i as int);
            let o = outcomes@[i as int];
            assert(outcomes@.take(i + 1) =~= head.push(o));
            head.lemma_filter_push(o, |o: Outcome| o == Outcome::Completed);
            head.lemma_filter_push(o, |o: Outcome| o == Outcome::SkippedNoSegments);
            head.lemma_filter_push(o, |o: Outcome| o is Failed);
        }
        match outcomes[i] {
            Outcome::Completed => {
                summary.completed = summary.completed + 1;
            },
            Outcome::SkippedNoSegments => {
                summary.skipped = summary.skipped + 1;
            },
            Outcome::Failed(_) => {
                summary.failed = summary.failed + 1;
            },
        }
        i += 1;
    }
    assert(outcomes@.take(n as int) =~= outcomes@);
    summary
}

/// Every action brings an unfinished clip nearer to its end.
pub proof fn lemma_step_makes_progress(state: ClipState, result: StepResult)
    requires
        !(state is Cleaned),
    ensures
        steps_left(next_state(state, result)) < steps_left(state),
{
}

/// A clip never needs more actions than its state says.
proof fn lemma_steps_bound(results: Seq<StepResult>)
    ensures
        steps_left(state_after(results)) + results.len() <= 5 || state_after(results) is Cleaned,
    decreases results.len(),
{
    if results.len() > 0 {
        lemma_steps_bound(results.drop_last());
    }
}

/// Whatever happens to a clip, and at whichever step, after five actions it
/// is finished and its temporary files have been removed.
pub proof fn lemma_every_clip_is_cleaned(results: Seq<StepResult>)
    requires
        results.len() >= 5,
    ensures
        state_after(results) is Cleaned,
{
    lemma_steps_bound(results);
}

/// A clip is finished only by removing its temporary files: the action
/// that leads into `Cleaned` is always `Cleanup`.
pub proof fn lemma_cleaned_only_by_cleanup(state: ClipState, result: StepResult)
    requires
        !(state is Cleaned),
        next_state(state, result) is Cleaned,
    ensures
        pending(state) == Action::Cleanup,
{
}

/// A finished clip has had its temporary files removed: somewhere in its
/// history the pending action was `Cleanup`.
pub proof fn lemma_finished_clip_was_cleaned(results: Seq<StepResult>)
    requires
        state_after(results) is Cleaned,
    ensures
        exists|k: int|
            0 <= k < results.len() && pending(#[trigger] state_after(results.take(k)))
                == Action::Cleanup,
    decreases results.len(),
{
    if results.len() > 0 {
        let before = results.drop_last();
        assert(before =~= results.take(results.len() - 1));
        if state_after(before) is Cleaned {
            lemma_finished_clip_was_cleaned(before);
            let k = choose|k: int|
                0 <= k < before.len() && pending(#[trigger] state_after(before.take(k)))
                    == Action::Cleanup;
            assert(before.take(k) =~= results.take(k));
        } else {
            lemma_cleaned_only_by_cleanup(state_after(before), results.last());
        }
    }
}

/// Where the locator finds no segment directory, the locating step reports
/// missing segments, and the clip goes from its discovery to `Skipped`.
pub proof fn lemma_nothing_located_skips(found: Option<String>)
    requires
        found is None,
    ensures
        located(found) is Err,
        result_of_error(located(found)->Err_0) == StepResult::Missing,
        next_state(ClipState::Discovered, result_of_error(located(found)->Err_0))
            == ClipState::Skipped,
{
}

/// Where the segment directory is missing the clip is skipped, and no
/// action that writes a temporary or an output file is ever asked for.
pub proof fn lemma_missing_segment_dir_skips(results: Seq<StepResult>, k: int)
    requires
        results.len() >= 1,
        results[0] == StepResult::Missing,
        0 <= k <= results.len(),
    ensures
        !writes_files(pending(state_after(results.take(k)))),
        k == 1 ==> state_after(results.take(k)) == ClipState::Skipped,
        k >= 2 ==> state_after(results.take(k)) == ClipState::Cleaned(Outcome::SkippedNoSegments),
    decreases k,
{
    if k == 0 {
        assert(results.take(0) =~= Seq::<StepResult>::empty());
    } else {
        lemma_missing_segment_dir_skips(results, k - 1);
        assert(results.take(k).drop_last() =~= results.take(k - 1));
        assert(results.take(k).last() == results[k - 1]);
        if k == 1 {
            assert(results.take(0) =~= Seq::<StepResult>::empty());
        }
    }
}

/// Where muxing fails the clip is marked as failed at that step, its
/// temporary files are removed next, and only then is the clip finished.
pub proof fn lemma_mux_failure_fails_clip(
    results: Seq<StepResult>,
    mux: StepResult,
    cleanup: StepResult,
)
    requires
        state_after(results) == ClipState::Named,
        mux != StepResult::Done,
    ensures
        state_after(results.push(mux)) == ClipState::Failed(Stage::Mux),
        pending(state_after(results.push(mux))) == Action::Cleanup,
        state_after(results.push(mux).push(cleanup)) == ClipState::Cleaned(
            Outcome::Failed(Stage::Mux),
        ),
{
    assert(results.push(mux).drop_last() =~= results);
    assert(results.push(mux).push(cleanup).drop_last() =~= results.push(mux));
}

/// A clip is completed exactly where locating, assembling, naming and
/// muxing all went well.
pub proof fn lemma_completed_iff_all_done(results: Seq<StepResult>)
    requires
        results.len() >= 5,
    ensures
        state_after(results) == ClipState::Cleaned(Outcome::Completed) <==> (forall|i: int|
            0 <= i < 4 ==> results[i] == StepResult::Done),
{
    let r1 = results.take(1);
    let r2 = results.take(2);
    let r3 = results.take(3);
    let r4 = results.take(4);
    let r5 = results.take(5);
    assert(r1.drop_last() =~= Seq::<StepResult>::empty());
    assert(r2.drop_last() =~= r1);
    assert(r3.drop_last() =~= r2);
    assert(r4.drop_last() =~= r3);
    assert(r5.drop_last() =~= r4);
    assert(state_after(Seq::<StepResult>::empty()) == ClipState::Discovered);
    assert(state_after(r1) == next_state(ClipState::Discovered, results[0]));
    assert(state_after(r2) == next_state(state_after(r1), results[1]));
    assert(state_after(r3) == next_state(state_after(r2), results[2]));
    assert(state_after(r4) == next_state(state_after(r3), results[3]));
    assert(state_after(r5) == next_state(state_after(r4), results[4]));
    lemma_steps_bound(r5);
    lemma_cleaned_is_final(results, 5);
    assert(results.take(results.len() as int) =~= results);
}

/// Once a clip is finished, nothing changes how it ended.
pub proof fn lemma_cleaned_is_final(results: Seq<StepResult>, k: int)
    requires
        0 <= k <= results.len(),
        state_after(results.take(k)) is Cleaned,
    ensures
        state_after(results) == state_after(results.take(k)),
    decreases results.len() - k,
{
    if k == results.len() {
        assert(results.take(k) =~= results);
    } else {
        assert(results.take(k + 1).drop_last() =~= results.take(k));
        lemma_cleaned_is_final(results, k + 1);
    }
}

} // verus!
