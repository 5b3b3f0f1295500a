//! Putting staged images in place for good: a commit, and once it is through
//! the recovery that sweeps up behind it.

use crate::error::{Error, Refusal};
use crate::state::{BoxRef, BoxView};
use crate::storage::journal::{
    self, ActionView, Commit, CommitStageView, CommitView, DiskAction, DiskEvent, EventView,
};
use crate::storage::recover::{
    self, JournalRead, JournalReadView, Recover, RecoverStageView, RecoverView,
};
use vstd::prelude::*;

verus! {

/// What an installation asks for.
#[derive(Debug)]
pub enum InstallStep {
    Act(DiskAction),
    /// Read the journal of the box.
    ReadJournal,
    Nothing,
}

#[verifier::ext_equal]
pub enum InstallStepView {
    Act(ActionView),
    ReadJournal,
    Nothing,
}

impl View for InstallStep {
    type V = InstallStepView;

    open spec fn view(&self) -> InstallStepView {
        match self {
            InstallStep::Act(action) => InstallStepView::Act(action@),
            InstallStep::ReadJournal => InstallStepView::ReadJournal,
            InstallStep::Nothing => InstallStepView::Nothing,
        }
    }
}

/// What came of it.
#[derive(Debug)]
pub enum InstallEvent {
    Happened(DiskEvent),
    Read(JournalRead),
}

#[verifier::ext_equal]
pub enum InstallEventView {
    Happened(EventView),
    Read(JournalReadView),
}

impl View for InstallEvent {
    type V = InstallEventView;

    open spec fn view(&self) -> InstallEventView {
        match self {
            InstallEvent::Happened(event) => InstallEventView::Happened(event@),
            InstallEvent::Read(read) => InstallEventView::Read(read@),
        }
    }
}

/// How far an installation has come.
#[derive(Debug)]
enum InstallStage {
    Committing(Commit),
    Reading,
    Sweeping(Recover),
    Finished(Result<(), Error>),
}

#[verifier::ext_equal]
pub enum InstallStageView {
    Committing(CommitView),
    Reading,
    Sweeping(RecoverView),
    Finished(Result<(), Refusal>),
}

impl View for InstallStage {
    type V = InstallStageView;

    closed spec fn view(&self) -> InstallStageView {
        match self {
            InstallStage::Committing(commit) => InstallStageView::Committing(commit@),
            InstallStage::Reading => InstallStageView::Reading,
            InstallStage::Sweeping(recovery) => InstallStageView::Sweeping(recovery@),
            InstallStage::Finished(Ok(())) => InstallStageView::Finished(Ok(())),
            InstallStage::Finished(Err(error)) => InstallStageView::Finished(Err(error@)),
        }
    }
}

/// Puts staged images in place and sweeps up.
#[derive(Debug)]
pub struct Install {
    bx: BoxRef,
    stamp: String,
    stage: InstallStage,
}

#[verifier::ext_equal]
pub struct InstallView {
    pub bx: BoxView,
    /// The stamp of a baked root.
    pub stamp: Seq<char>,
    pub stage: InstallStageView,
}

impl View for Install {
    type V = InstallView;

    closed spec fn view(&self) -> InstallView {
        InstallView { bx: self.bx@, stamp: self.stamp@, stage: self.stage@ }
    }
}

/// What an installation asks for.
pub open spec fn install_asks(m: InstallView) -> InstallStepView {
    match m.stage {
        InstallStageView::Committing(commit) => match journal::commit_asks(commit) {
            Some(action) => InstallStepView::Act(action),
            None => InstallStepView::Nothing,
        },
        InstallStageView::Reading => InstallStepView::ReadJournal,
        InstallStageView::Sweeping(recovery) => match recover::recover_asks(recovery) {
            Some(action) => InstallStepView::Act(action),
            None => InstallStepView::Nothing,
        },
        InstallStageView::Finished(_) => InstallStepView::Nothing,
    }
}

/// The stage a commit puts an installation at: one that failed ends it, and
/// one that is through has the journal read again.
pub open spec fn committed_to(commit: CommitView) -> InstallStageView {
    match commit.stage {
        CommitStageView::Finished(Ok(())) => InstallStageView::Reading,
        CommitStageView::Finished(Err(error)) => InstallStageView::Finished(Err(error)),
        _ => InstallStageView::Committing(commit),
    }
}

/// The stage a recovery puts an installation at.
pub open spec fn swept_to(recovery: RecoverView) -> InstallStageView {
    match recovery.stage {
        RecoverStageView::Finished(Ok(())) => InstallStageView::Finished(Ok(())),
        RecoverStageView::Finished(Err(error)) => InstallStageView::Finished(Err(error)),
        _ => InstallStageView::Sweeping(recovery),
    }
}

/// What an installation becomes once it is told what came of what it asked
/// for; what it did not ask for changes nothing.
pub open spec fn install_after(m: InstallView, event: InstallEventView) -> InstallView {
    let stage = match (m.stage, event) {
        (InstallStageView::Committing(commit), InstallEventView::Happened(event)) => committed_to(
            journal::commit_after(commit, event),
        ),
        (InstallStageView::Reading, InstallEventView::Read(read)) => match recover::recovery_of(
            m.bx,
            m.stamp,
            read,
        ) {
            Ok(Some(recovery)) => swept_to(recovery),
            Ok(None) => InstallStageView::Finished(Ok(())),
            Err(error) => InstallStageView::Finished(Err(error)),
        },
        (InstallStageView::Sweeping(recovery), InstallEventView::Happened(event)) => swept_to(
            recover::recover_after(recovery, event),
        ),
        _ => m.stage,
    };
    InstallView { stage, ..m }
}

fn after_commit(commit: Commit) -> (stage: InstallStage)
    ensures
        stage@ == committed_to(commit@),
{
    if !commit.is_over() {
        return InstallStage::Committing(commit);
    }
    match commit.into_result() {
        Some(Err(error)) => InstallStage::Finished(Err(error)),
        _ => InstallStage::Reading,
    }
}

fn after_sweep(recovery: Recover) -> (stage: InstallStage)
    ensures
        stage@ == swept_to(recovery@),
{
    if !recovery.is_over() {
        return InstallStage::Sweeping(recovery);
    }
    match recovery.into_result() {
        Some(Err(error)) => InstallStage::Finished(Err(error)),
        _ => InstallStage::Finished(Ok(())),
    }
}

impl Install {
    /// The installation of images staged in a directory, each with its path
    /// and the path it was staged at, or why there is none.
    pub fn start(
        bx: &BoxRef,
        stamp: &str,
        staging_dir: &str,
        staged: Vec<(String, String)>,
    ) -> (begun: Result<Install, Error>)
        ensures
            match journal::commit_of(bx@.dir, staging_dir@, journal::pairs(staged@)) {
                Ok(commit) => begun is Ok && begun->Ok_0@ == (InstallView {
                    bx: bx@,
                    stamp: stamp@,
                    stage: InstallStageView::Committing(commit),
                }),
                Err(error) => begun is Err && begun->Err_0@ == error,
            },
    {
        match Commit::start(bx.dir(), staging_dir, staged) {
            Ok(commit) => Ok(
                Install {
                    bx: bx.copy(),
                    stamp: stamp.to_owned(),
                    stage: InstallStage::Committing(commit),
                },
            ),
            Err(error) => Err(error),
        }
    }

    /// What is to be done next.
    pub fn next(&self) -> (step: InstallStep)
        ensures
            step@ == install_asks(self@),
    {
        match &self.stage {
            InstallStage::Committing(commit) => match commit.next() {
                Some(action) => InstallStep::Act(action),
                None => InstallStep::Nothing,
            },
            InstallStage::Reading => InstallStep::ReadJournal,
            InstallStage::Sweeping(recovery) => match recovery.next() {
                Some(action) => InstallStep::Act(action),
                None => InstallStep::Nothing,
            },
            InstallStage::Finished(_) => InstallStep::Nothing,
        }
    }

    /// The installation once it is told what came of what it asked for.
    pub fn advance(self, event: InstallEvent) -> (next: Install)
        ensures
            next@ == install_after(self@, event@),
    {
        let bx = self.bx;
        let stamp = self.stamp;
        let stage = match (self.stage, event) {
            (InstallStage::Committing(commit), InstallEvent::Happened(event)) => after_commit(
                commit.advance(event),
            ),
            (InstallStage::Reading, InstallEvent::Read(read)) => match Recover::start(
                &bx,
                stamp.as_str(),
                read,
            ) {
                Ok(Some(recovery)) => after_sweep(recovery),
                Ok(None) => InstallStage::Finished(Ok(())),
                Err(error) => InstallStage::Finished(Err(error)),
            },
            (InstallStage::Sweeping(recovery), InstallEvent::Happened(event)) => after_sweep(
                recovery.advance(event),
            ),
            (stage, _) => stage,
        };
        Install { bx, stamp, stage }
    }

    /// How the installation ended; `None` while it is under way.
    pub fn into_result(self) -> (result: Option<Result<(), Error>>)
        ensures
            match self@.stage {
                InstallStageView::Finished(Ok(())) => result is Some && result->0 is Ok,
                InstallStageView::Finished(Err(error)) => result is Some && result->0 is Err
                    && result->0->Err_0@ == error,
                _ => result is None,
            },
    {
        match self.stage {
            InstallStage::Finished(result) => Some(result),
            _ => None,
        }
    }
}

} // verus!
