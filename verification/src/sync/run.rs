//! A run of a plan: what is done next, and what each answer makes of it.

use crate::error::{self, Error, Refusal, refuse};
use crate::sync::effect;
use crate::sync::entry::{SyncDirection, SyncRules};
use crate::sync::exec::{self, SyncStats, copy_action, planned_stats, schedule};
use crate::sync::links::{self, validate_download_symlink_target};
use crate::sync::plan::{ActionView, PlanAction};
use crate::text;
use vstd::prelude::*;

verus! {

/// What a run asks for.
#[derive(Debug)]
pub enum RunStep {
    /// To have an action done on the side that is written.
    Perform(PlanAction),
    /// To end the session with the box.
    EndSession,
    /// Nothing: the run is over.
    Nothing,
}

#[verifier::ext_equal]
pub enum RunStepView {
    Perform(ActionView),
    EndSession,
    Nothing,
}

impl View for RunStep {
    type V = RunStepView;

    open spec fn view(&self) -> RunStepView {
        match self {
            RunStep::Perform(action) => RunStepView::Perform(action@),
            RunStep::EndSession => RunStepView::EndSession,
            RunStep::Nothing => RunStepView::Nothing,
        }
    }
}

/// What came of it.
#[derive(Debug)]
pub enum RunEvent {
    Done,
    /// The box answered otherwise than with being ready for the file.
    NotReady(String),
    /// The box answered otherwise than with success.
    Unconfirmed(String),
    Failed(Error),
}

#[verifier::ext_equal]
pub enum RunEventView {
    Done,
    NotReady(Seq<char>),
    Unconfirmed(Seq<char>),
    Failed(Refusal),
}

impl View for RunEvent {
    type V = RunEventView;

    open spec fn view(&self) -> RunEventView {
        match self {
            RunEvent::Done => RunEventView::Done,
            RunEvent::NotReady(got) => RunEventView::NotReady(got@),
            RunEvent::Unconfirmed(got) => RunEventView::Unconfirmed(got@),
            RunEvent::Failed(error) => RunEventView::Failed(error@),
        }
    }
}

/// What is said where the box was not ready for a file.
pub open spec fn not_ready(direction: SyncDirection, got: Seq<char>) -> Refusal {
    if direction == SyncDirection::HostToGuest {
        error::refusal("expected WriteFileReady from agent, got "@ + got)
    } else {
        error::refusal("expected ReadFileReady from agent, got "@ + got)
    }
}

/// What is said where the box did not confirm what it was asked.
pub open spec fn unconfirmed(action: ActionView, direction: SyncDirection, got: Seq<char>) -> Refusal {
    match action {
        ActionView::CreateDir { .. } => error::refusal("expected Success after CreateDir, got "@ + got),
        ActionView::TransferFile { .. } => if direction == SyncDirection::HostToGuest {
            error::refusal("expected Success after file transfer, got "@ + got)
        } else {
            error::refusal("guest did not confirm completed file transfer"@)
        },
        ActionView::CreateSymlink { .. } => error::refusal(
            "expected Success after CreateSymlink, got "@ + got,
        ),
        ActionView::UpdateFileMetadata { .. } => error::refusal(
            "expected Success after UpdateMetadata, got "@ + got,
        ),
        ActionView::RemoveEntry { .. } => error::refusal(
            "expected Success after RemoveEntry, got "@ + got,
        ),
        _ => error::refusal("expected Success after directory UpdateMetadata, got "@ + got),
    }
}

fn refuse_answer(what: &str, got: &str) -> (error: Error)
    ensures
        error@ == error::refusal(what@ + got@),
{
    let mut message: String = what.to_owned();
    message.append(got);
    Error::new(message)
}

fn refuse_unready(direction: SyncDirection, got: &str) -> (error: Error)
    ensures
        error@ == not_ready(direction, got@),
{
    if direction == SyncDirection::HostToGuest {
        refuse_answer("expected WriteFileReady from agent, got ", got)
    } else {
        refuse_answer("expected ReadFileReady from agent, got ", got)
    }
}

fn refuse_unconfirmed(action: &PlanAction, direction: SyncDirection, got: &str) -> (error: Error)
    ensures
        error@ == unconfirmed(action@, direction, got@),
{
    match action {
        PlanAction::CreateDir { .. } => refuse_answer("expected Success after CreateDir, got ", got),
        PlanAction::TransferFile { .. } => if direction == SyncDirection::HostToGuest {
            refuse_answer("expected Success after file transfer, got ", got)
        } else {
            refuse("guest did not confirm completed file transfer")
        },
        PlanAction::CreateSymlink { .. } => refuse_answer(
            "expected Success after CreateSymlink, got ",
            got,
        ),
        PlanAction::UpdateFileMetadata { .. } => refuse_answer(
            "expected Success after UpdateMetadata, got ",
            got,
        ),
        PlanAction::RemoveEntry { .. } => refuse_answer(
            "expected Success after RemoveEntry, got ",
            got,
        ),
        _ => refuse_answer("expected Success after directory UpdateMetadata, got ", got),
    }
}

/// How far a run has come.
#[derive(Debug)]
enum RunStage {
    Going,
    Finished,
    Rehearsed,
    Failed(Error),
}

#[verifier::ext_equal]
pub enum RunStageView {
    Going,
    Finished,
    /// Nothing was to be done but to say what would be.
    Rehearsed,
    Failed(Refusal),
}

impl View for RunStage {
    type V = RunStageView;

    closed spec fn view(&self) -> RunStageView {
        match self {
            RunStage::Going => RunStageView::Going,
            RunStage::Finished => RunStageView::Finished,
            RunStage::Rehearsed => RunStageView::Rehearsed,
            RunStage::Failed(error) => RunStageView::Failed(error@),
        }
    }
}

/// A plan being carried out.
#[derive(Debug)]
pub struct Run {
    steps: Vec<PlanAction>,
    done: usize,
    stats: SyncStats,
    direction: SyncDirection,
    rules: SyncRules,
    stage: RunStage,
}

#[verifier::ext_equal]
pub struct RunView {
    /// All that is to be done, in order.
    pub steps: Seq<ActionView>,
    /// How much of it was done.
    pub done: nat,
    /// What all of it comes to.
    pub stats: SyncStats,
    pub direction: SyncDirection,
    pub rules: SyncRules,
    pub stage: RunStageView,
}

impl View for Run {
    type V = RunView;

    closed spec fn view(&self) -> RunView {
        RunView {
            steps: text::views(self.steps@),
            done: self.done as nat,
            stats: self.stats,
            direction: self.direction,
            rules: self.rules,
            stage: self.stage@,
        }
    }
}

/// What is held against the action a run has come to: a link of the box is
/// looked at once more before it is made on the host.
pub open spec fn action_verdict(action: ActionView, direction: SyncDirection, rules: SyncRules) -> Result<
    (),
    Refusal,
> {
    match action {
        ActionView::CreateSymlink { rel_path, target } => if direction
            == SyncDirection::GuestToHost {
            links::target_verdict(rel_path, target, rules)
        } else {
            Ok(())
        },
        _ => Ok(()),
    }
}

/// A run with so much done, unless what comes next is refused.
pub open spec fn come_to(run: RunView, done: nat) -> RunView {
    let stage = if done < run.steps.len() {
        match action_verdict(run.steps[done as int], run.direction, run.rules) {
            Ok(_) => RunStageView::Going,
            Err(refused) => RunStageView::Failed(refused),
        }
    } else {
        RunStageView::Going
    };
    RunView { done, stage, ..run }
}

/// A run of a plan that was just begun; a rehearsal is over at once.
pub open spec fn run_of(
    actions: Seq<ActionView>,
    direction: SyncDirection,
    rules: SyncRules,
    is_dry_run: bool,
) -> RunView {
    let run = RunView {
        steps: exec::scheduled(actions),
        done: 0,
        stats: exec::stats_of(actions),
        direction,
        rules,
        stage: RunStageView::Rehearsed,
    };
    if is_dry_run {
        run
    } else {
        come_to(run, 0)
    }
}

/// What a run asks for.
pub open spec fn run_step(run: RunView) -> RunStepView {
    if !(run.stage is Going) {
        RunStepView::Nothing
    } else if run.done < run.steps.len() {
        RunStepView::Perform(run.steps[run.done as int])
    } else {
        RunStepView::EndSession
    }
}

/// A run once what it asked for was answered; one that is over stays so.
pub open spec fn run_after(run: RunView, event: RunEventView) -> RunView {
    if !(run.stage is Going) {
        run
    } else if run.done < run.steps.len() {
        match event {
            RunEventView::Done => come_to(run, run.done + 1),
            RunEventView::NotReady(got) => RunView {
                stage: RunStageView::Failed(not_ready(run.direction, got)),
                ..run
            },
            RunEventView::Unconfirmed(got) => RunView {
                stage: RunStageView::Failed(
                    unconfirmed(run.steps[run.done as int], run.direction, got),
                ),
                ..run
            },
            RunEventView::Failed(refused) => RunView {
                stage: RunStageView::Failed(refused),
                ..run
            },
        }
    } else {
        RunView {
            stage: match event {
                RunEventView::Done => RunStageView::Finished,
                RunEventView::Failed(refused) => RunStageView::Failed(refused),
                _ => RunStageView::Failed(error::refusal("expected session completion"@)),
            },
            ..run
        }
    }
}

/// Whether a run has finished, if it has, with everything done.
pub open spec fn well_run(run: RunView) -> bool {
    &&& run.done <= run.steps.len()
    &&& run.stage is Finished ==> run.done == run.steps.len()
}

fn check_action(action: &PlanAction, direction: SyncDirection, rules: &SyncRules) -> (verdict: Result<
    (),
    Error,
>)
    ensures
        error::outcome(verdict) == action_verdict(action@, direction, *rules),
{
    match action {
        PlanAction::CreateSymlink { rel_path, target } => if direction
            == SyncDirection::GuestToHost {
            validate_download_symlink_target(rel_path.as_str(), target.as_str(), rules)
        } else {
            Ok(())
        },
        _ => Ok(()),
    }
}

impl Run {
    fn come_to_next(&mut self)
        requires
            old(self)@.done <= old(self)@.steps.len(),
        ensures
            final(self)@ == come_to(old(self)@, old(self)@.done),
    {
        self.stage = RunStage::Going;
        if self.done < self.steps.len() {
            proof {
                assert(text::views(self.steps@)[self.done as int] == self.steps@[self.done as int]@);
            }
            if let Err(error) = check_action(&self.steps[self.done], self.direction, &self.rules) {
                self.stage = RunStage::Failed(error);
            }
        }
    }

    /// Begins to carry out a plan, or only rehearses it.
    pub fn start(
        actions: &Vec<PlanAction>,
        direction: SyncDirection,
        rules: SyncRules,
        is_dry_run: bool,
    ) -> (run: Run)
        requires
            exec::bytes_of(text::views(actions@)) <= u64::MAX,
        ensures
            run@ == run_of(text::views(actions@), direction, rules, is_dry_run),
            well_run(run@),
            is_dry_run ==> run_step(run@) == RunStepView::Nothing,
    {
        let mut run = Run {
            steps: schedule(actions),
            done: 0,
            stats: planned_stats(actions),
            direction,
            rules,
            stage: RunStage::Rehearsed,
        };
        if !is_dry_run {
            run.come_to_next();
        }
        run
    }

    /// What has to be done now.
    pub fn next(&self) -> (step: RunStep)
        ensures
            step@ == run_step(self@),
    {
        match &self.stage {
            RunStage::Going => if self.done < self.steps.len() {
                proof {
                    assert(text::views(self.steps@)[self.done as int]
                        == self.steps@[self.done as int]@);
                }
                RunStep::Perform(copy_action(&self.steps[self.done]))
            } else {
                RunStep::EndSession
            },
            _ => RunStep::Nothing,
        }
    }

    /// Takes in what came of it.
    pub fn advance(&mut self, event: RunEvent)
        requires
            well_run(old(self)@),
        ensures
            final(self)@ == run_after(old(self)@, event@),
            well_run(final(self)@),
    {
        match &self.stage {
            RunStage::Going => {},
            _ => {
                return;
            },
        }
        proof {
            assert(self@.steps.len() == self.steps.len());
        }
        if self.done < self.steps.len() {
            proof {
                assert(text::views(self.steps@)[self.done as int] == self.steps@[self.done as int]@);
            }
            match event {
                RunEvent::Done => {
                    self.done = self.done + 1;
                    self.come_to_next();
                },
                RunEvent::NotReady(got) => {
                    self.stage = RunStage::Failed(refuse_unready(self.direction, got.as_str()));
                },
                RunEvent::Unconfirmed(got) => {
                    let error = refuse_unconfirmed(
                        &self.steps[self.done],
                        self.direction,
                        got.as_str(),
                    );
                    self.stage = RunStage::Failed(error);
                },
                RunEvent::Failed(error) => {
                    self.stage = RunStage::Failed(error);
                },
            }
        } else {
            match event {
                RunEvent::Done => {
                    self.stage = RunStage::Finished;
                },
                RunEvent::Failed(error) => {
                    self.stage = RunStage::Failed(error);
                },
                _ => {
                    self.stage = RunStage::Failed(refuse("expected session completion"));
                },
            }
        }
    }

    /// How the run ended; `None` while it is under way.
    pub fn into_result(self) -> (result: Option<Result<SyncStats, Error>>)
        ensures
            match self@.stage {
                RunStageView::Going => result is None,
                RunStageView::Finished | RunStageView::Rehearsed => result == Some(
                    Ok::<SyncStats, Error>(self@.stats),
                ),
                RunStageView::Failed(refused) => result is Some && result->0 is Err
                    && result->0->Err_0@ == refused,
            },
    {
        match self.stage {
            RunStage::Going => None,
            RunStage::Finished | RunStage::Rehearsed => Some(Ok(self.stats)),
            RunStage::Failed(error) => Some(Err(error)),
        }
    }
}

/// A run after a number of answers.
pub open spec fn run_through(run: RunView, events: Seq<RunEventView>) -> RunView
    decreases events.len(),
{
    if events.len() == 0 {
        run
    } else {
        run_after(run_through(run, events.drop_last()), events.last())
    }
}

proof fn lemma_run_through(run: RunView, events: Seq<RunEventView>)
    requires
        well_run(run),
    ensures
        well_run(run_through(run, events)),
        run_through(run, events).steps == run.steps,
        run_through(run, events).stats == run.stats,
        run_through(run, events).direction == run.direction,
    decreases events.len(),
{
    if events.len() > 0 {
        lemma_run_through(run, events.drop_last());
    }
}

/// Nothing is removed before all there is to copy was copied: wherever a run
/// asks for a removal, whatever was answered before, every directory was made
/// and every file and link written.
pub proof fn removals_wait_for_every_copy(
    actions: Seq<ActionView>,
    direction: SyncDirection,
    rules: SyncRules,
    is_dry_run: bool,
    events: Seq<RunEventView>,
    k: int,
)
    requires
        run_step(run_through(run_of(actions, direction, rules, is_dry_run), events)) matches RunStepView::Perform(
            action,
        ) && action is RemoveEntry,
        0 <= k < exec::scheduled(actions).len(),
        exec::phase(exec::scheduled(actions)[k]) < 3,
    ensures
        k < run_through(run_of(actions, direction, rules, is_dry_run), events).done,
{
    let run = run_through(run_of(actions, direction, rules, is_dry_run), events);
    lemma_run_through(run_of(actions, direction, rules, is_dry_run), events);
    if k > run.done {
        effect::runs_go_in_order(actions, run.done as int, k);
    }
}

/// A run that ended well did all of its plan and says so in numbers, and one
/// that failed asks for nothing more.
pub proof fn runs_finish_or_stop(
    actions: Seq<ActionView>,
    direction: SyncDirection,
    rules: SyncRules,
    is_dry_run: bool,
    events: Seq<RunEventView>,
    event: RunEventView,
)
    ensures
        ({
            let run = run_through(run_of(actions, direction, rules, is_dry_run), events);
            &&& run.stage is Finished ==> run.done == exec::scheduled(actions).len() && run.stats
                == exec::stats_of(actions)
            &&& run.stage is Failed ==> run_step(run) == RunStepView::Nothing && run_after(run, event)
                == run
        }),
{
    lemma_run_through(run_of(actions, direction, rules, is_dry_run), events);
}

/// A rehearsal changes nothing: it never asks for anything to be done, nor
/// for the session to be ended, whatever it is told, so that everything stands
/// where it stood as it did; and its numbers are those a run that did all of
/// the plan would give.
pub proof fn rehearsals_do_nothing(
    actions: Seq<ActionView>,
    direction: SyncDirection,
    rules: SyncRules,
    events: Seq<RunEventView>,
    path: Seq<char>,
    standing: Option<effect::Node>,
)
    ensures
        ({
            let run = run_through(run_of(actions, direction, rules, true), events);
            &&& run == run_of(actions, direction, rules, true)
            &&& run_step(run) == RunStepView::Nothing
            &&& run.done == 0
            &&& run.stage is Rehearsed
            &&& run.stats == exec::stats_of(actions)
            &&& effect::node_after(
                run.steps.take(run.done as int),
                path,
                standing,
                direction,
                rules.host,
            ) == standing
        }),
    decreases events.len(),
{
    if events.len() > 0 {
        rehearsals_do_nothing(actions, direction, rules, events.drop_last(), path, standing);
    }
}

} // verus!
