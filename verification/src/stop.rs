//! Stopping a box: ask the guest to shut down, wait out the grace, kill what is
//! still there.

use crate::error::{self, Error, Refusal};
use crate::state::{self, BoxRef, BoxView, Holder, VmProcess};
use crate::text::{self, spell};
use vstd::prelude::*;

verus! {

/// How a stop ended.
#[derive(Debug, Clone, Copy, PartialEq, Eq, Structural)]
pub enum StopOutcome {
    AlreadyStopped,
    StoppedGracefully,
    Killed,
    /// The published pid did not identify the process holding this box.
    IdentityUnknown,
    /// Still holding the box after being killed.
    Wedged,
}

/// What is done about a box that is being set up.
#[derive(Debug, Clone, Copy, PartialEq, Eq, Structural)]
pub enum SetupAction {
    Refuse,
    Stop,
}

/// What came of a signal.
#[derive(Debug, Clone, Copy, PartialEq, Eq, Structural)]
pub enum SignalResult {
    Sent,
    IdentityUnknown,
}

/// What a stop asks for.
#[derive(Debug, Clone, Copy, PartialEq, Eq, Structural)]
pub enum StopRequest {
    /// Who holds the box, and which process it says its VM is.
    Look,
    /// Ask the process to stop, or make it.
    Signal { vm: VmProcess, forced: bool },
    /// Wait a moment, unless the grace has run out.
    AwaitGrace,
    /// Wait a moment, unless the time a killed process has to go has run out.
    AwaitReaping,
}

/// What came of it.
#[derive(Debug)]
pub enum StopEvent {
    Looked { holder: Holder, vm: Option<VmProcess> },
    Signalled(Result<SignalResult, String>),
    Waited { expired: bool },
}

#[verifier::ext_equal]
pub enum StopEventView {
    Looked { holder: Holder, vm: Option<VmProcess> },
    Signalled(Result<SignalResult, Seq<char>>),
    Waited { expired: bool },
}

impl View for StopEvent {
    type V = StopEventView;

    open spec fn view(&self) -> StopEventView {
        match self {
            StopEvent::Looked { holder, vm } => StopEventView::Looked { holder: *holder, vm: *vm },
            StopEvent::Signalled(Ok(result)) => StopEventView::Signalled(Ok(*result)),
            StopEvent::Signalled(Err(why)) => StopEventView::Signalled(Err(why@)),
            StopEvent::Waited { expired } => StopEventView::Waited { expired: *expired },
        }
    }
}

/// How far a stop has come.
#[derive(Debug)]
enum StopStage {
    Looking,
    /// The box is held, but says no process yet.
    AwaitingPid,
    Asking(VmProcess),
    Watching(VmProcess, SignalResult),
    Waiting(VmProcess, SignalResult),
    Killing(VmProcess),
    Reaping,
    AwaitingReaping,
    Finished(Result<StopOutcome, Error>),
}

#[verifier::ext_equal]
pub enum StopStageView {
    Looking,
    AwaitingPid,
    Asking(VmProcess),
    Watching(VmProcess, SignalResult),
    Waiting(VmProcess, SignalResult),
    Killing(VmProcess),
    Reaping,
    AwaitingReaping,
    Finished(Result<StopOutcome, Refusal>),
}

impl View for StopStage {
    type V = StopStageView;

    closed spec fn view(&self) -> StopStageView {
        match self {
            StopStage::Looking => StopStageView::Looking,
            StopStage::AwaitingPid => StopStageView::AwaitingPid,
            StopStage::Asking(vm) => StopStageView::Asking(*vm),
            StopStage::Watching(vm, sent) => StopStageView::Watching(*vm, *sent),
            StopStage::Waiting(vm, sent) => StopStageView::Waiting(*vm, *sent),
            StopStage::Killing(vm) => StopStageView::Killing(*vm),
            StopStage::Reaping => StopStageView::Reaping,
            StopStage::AwaitingReaping => StopStageView::AwaitingReaping,
            StopStage::Finished(Ok(outcome)) => StopStageView::Finished(Ok(*outcome)),
            StopStage::Finished(Err(error)) => StopStageView::Finished(Err(error@)),
        }
    }
}

/// Stops a box. It asks for one thing at a time and is told what came of it.
#[derive(Debug)]
pub struct Stop {
    bx: BoxRef,
    setup_action: SetupAction,
    stage: StopStage,
}

#[verifier::ext_equal]
pub struct StopView {
    pub bx: BoxView,
    pub setup_action: SetupAction,
    pub stage: StopStageView,
}

impl View for Stop {
    type V = StopView;

    closed spec fn view(&self) -> StopView {
        StopView { bx: self.bx@, setup_action: self.setup_action, stage: self.stage@ }
    }
}

/// What a stop asks for; `None` once it is over.
pub open spec fn stop_asks(m: StopView) -> Option<StopRequest> {
    match m.stage {
        StopStageView::Looking => Some(StopRequest::Look),
        StopStageView::AwaitingPid => Some(StopRequest::AwaitGrace),
        StopStageView::Asking(vm) => Some(StopRequest::Signal { vm, forced: false }),
        StopStageView::Watching(_, _) => Some(StopRequest::Look),
        StopStageView::Waiting(_, _) => Some(StopRequest::AwaitGrace),
        StopStageView::Killing(vm) => Some(StopRequest::Signal { vm, forced: true }),
        StopStageView::Reaping => Some(StopRequest::Look),
        StopStageView::AwaitingReaping => Some(StopRequest::AwaitReaping),
        StopStageView::Finished(_) => None,
    }
}

/// A signal that could not be sent.
pub open spec fn signal_failed(what: Seq<char>, vm: VmProcess, bx: BoxView, why: Seq<char>) -> Refusal {
    error::refusal(what + " the VM process (pid "@ + text::decimal(vm.pid as nat) + ") of "@ + state::shown(bx))
        + error::refusal(why)
}

/// The stage a stop is in once it is told what came of what it asked for. What
/// it did not ask for tells it nothing.
pub open spec fn stop_stage_after(m: StopView, event: StopEventView) -> StopStageView {
    match (m.stage, event) {
        (StopStageView::Looking, StopEventView::Looked { holder, vm }) => if holder
            == Holder::Free {
            StopStageView::Finished(Ok(StopOutcome::AlreadyStopped))
        } else if holder == Holder::SettingUp && (m.setup_action == SetupAction::Refuse
            || vm is None) {
            StopStageView::Finished(Err(state::being_set_up(m.bx)))
        } else {
            match vm {
                Some(vm) => StopStageView::Asking(vm),
                None => StopStageView::AwaitingPid,
            }
        },
        (StopStageView::AwaitingPid, StopEventView::Waited { expired }) => if expired {
            StopStageView::Finished(
                Err(
                    error::refusal(
                        state::shown(m.bx)
                            + " is running but its VM published no pid to signal before the wait ran out"@,
                    ),
                ),
            )
        } else {
            StopStageView::Looking
        },
        (StopStageView::Asking(vm), StopEventView::Signalled(result)) => match result {
            Ok(sent) => StopStageView::Watching(vm, sent),
            Err(why) => StopStageView::Finished(Err(signal_failed("signalling"@, vm, m.bx, why))),
        },
        (StopStageView::Watching(vm, sent), StopEventView::Looked { holder, .. }) => if holder
            == Holder::Free {
            StopStageView::Finished(Ok(StopOutcome::StoppedGracefully))
        } else {
            StopStageView::Waiting(vm, sent)
        },
        (StopStageView::Waiting(vm, sent), StopEventView::Waited { expired }) => if !expired {
            StopStageView::Watching(vm, sent)
        } else if sent == SignalResult::IdentityUnknown {
            StopStageView::Finished(Ok(StopOutcome::IdentityUnknown))
        } else {
            StopStageView::Killing(vm)
        },
        (StopStageView::Killing(vm), StopEventView::Signalled(result)) => match result {
            Ok(SignalResult::Sent) => StopStageView::Reaping,
            Ok(SignalResult::IdentityUnknown) => StopStageView::Finished(
                Ok(StopOutcome::IdentityUnknown),
            ),
            Err(why) => StopStageView::Finished(Err(signal_failed("killing"@, vm, m.bx, why))),
        },
        (StopStageView::Reaping, StopEventView::Looked { holder, .. }) => if holder
            == Holder::Free {
            StopStageView::Finished(Ok(StopOutcome::Killed))
        } else {
            StopStageView::AwaitingReaping
        },
        (StopStageView::AwaitingReaping, StopEventView::Waited { expired }) => if expired {
            StopStageView::Finished(Ok(StopOutcome::Wedged))
        } else {
            StopStageView::Reaping
        },
        _ => m.stage,
    }
}

pub open spec fn stop_after(m: StopView, event: StopEventView) -> StopView {
    StopView { stage: stop_stage_after(m, event), ..m }
}

fn signal_error(what: &str, vm: VmProcess, bx: &BoxRef, why: String) -> (error: Error)
    ensures
        error@ == signal_failed(what@, vm, bx@, why@),
{
    let mut message: String = what.to_owned();
    message.append(" the VM process (pid ");
    message.append(spell(vm.pid as u64).as_str());
    message.append(") of ");
    message.append(bx.describe().as_str());
    Error::new(why).context(message)
}

impl Stop {
    pub fn start(bx: &BoxRef, setup_action: SetupAction) -> (stop: Stop)
        ensures
            stop@ == (StopView { bx: bx@, setup_action, stage: StopStageView::Looking }),
    {
        Stop { bx: bx.copy(), setup_action, stage: StopStage::Looking }
    }

    /// What is to be done next.
    pub fn next(&self) -> (request: Option<StopRequest>)
        ensures
            request == stop_asks(self@),
    {
        match &self.stage {
            StopStage::Looking => Some(StopRequest::Look),
            StopStage::AwaitingPid => Some(StopRequest::AwaitGrace),
            StopStage::Asking(vm) => Some(StopRequest::Signal { vm: *vm, forced: false }),
            StopStage::Watching(_, _) => Some(StopRequest::Look),
            StopStage::Waiting(_, _) => Some(StopRequest::AwaitGrace),
            StopStage::Killing(vm) => Some(StopRequest::Signal { vm: *vm, forced: true }),
            StopStage::Reaping => Some(StopRequest::Look),
            StopStage::AwaitingReaping => Some(StopRequest::AwaitReaping),
            StopStage::Finished(_) => None,
        }
    }

    /// What is said once a request was answered, before the next one: that the
    /// process was asked, and that it is killed after so many seconds.
    pub fn notice(&self, waited: bool, grace_secs: u64) -> (line: Option<String>)
        ensures
            match self@.stage {
                StopStageView::Watching(vm, _) if !waited => line is Some && line->0@
                    == "terra: stopping "@ + state::shown(self@.bx) + " (pid "@ + text::decimal(vm.pid as nat)
                    + ")"@,
                StopStageView::Killing(vm) => line is Some && line->0@ == "terra: "@ + state::shown(
                    self@.bx,
                ) + " did not stop within "@ + text::decimal(grace_secs as nat) + "s - killing pid "@
                    + text::decimal(vm.pid as nat),
                _ => line is None,
            },
    {
        match &self.stage {
            StopStage::Watching(vm, _) => {
                if waited {
                    return None;
                }
                let mut line: String = "terra: stopping ".to_owned();
                line.append(self.bx.describe().as_str());
                line.append(" (pid ");
                line.append(spell(vm.pid as u64).as_str());
                line.append(")");
                Some(line)
            },
            StopStage::Killing(vm) => {
                let mut line: String = "terra: ".to_owned();
                line.append(self.bx.describe().as_str());
                line.append(" did not stop within ");
                line.append(spell(grace_secs).as_str());
                line.append("s - killing pid ");
                line.append(spell(vm.pid as u64).as_str());
                Some(line)
            },
            _ => None,
        }
    }

    /// The stop once it is told what came of what it asked for.
    pub fn advance(self, event: StopEvent) -> (next: Stop)
        ensures
            next@ == stop_after(self@, event@),
    {
        let stage = match (self.stage, event) {
            (StopStage::Looking, StopEvent::Looked { holder, vm }) => {
                if holder == Holder::Free {
                    StopStage::Finished(Ok(StopOutcome::AlreadyStopped))
                } else if holder == Holder::SettingUp && (self.setup_action == SetupAction::Refuse
                    || vm.is_none()) {
                    StopStage::Finished(Err(self.bx.setup_holds_it()))
                } else {
                    match vm {
                        Some(vm) => StopStage::Asking(vm),
                        None => StopStage::AwaitingPid,
                    }
                }
            },
            (StopStage::AwaitingPid, StopEvent::Waited { expired }) => {
                if expired {
                    let mut message: String = self.bx.describe();
                    message.append(
                        " is running but its VM published no pid to signal before the wait ran out",
                    );
                    StopStage::Finished(Err(Error::new(message)))
                } else {
                    StopStage::Looking
                }
            },
            (StopStage::Asking(vm), StopEvent::Signalled(result)) => match result {
                Ok(sent) => StopStage::Watching(vm, sent),
                Err(why) => StopStage::Finished(
                    Err(signal_error("signalling", vm, &self.bx, why)),
                ),
            },
            (StopStage::Watching(vm, sent), StopEvent::Looked { holder, .. }) => {
                if holder == Holder::Free {
                    StopStage::Finished(Ok(StopOutcome::StoppedGracefully))
                } else {
                    StopStage::Waiting(vm, sent)
                }
            },
            (StopStage::Waiting(vm, sent), StopEvent::Waited { expired }) => {
                if !expired {
                    StopStage::Watching(vm, sent)
                } else if sent == SignalResult::IdentityUnknown {
                    StopStage::Finished(Ok(StopOutcome::IdentityUnknown))
                } else {
                    StopStage::Killing(vm)
                }
            },
            (StopStage::Killing(vm), StopEvent::Signalled(result)) => match result {
                Ok(SignalResult::Sent) => StopStage::Reaping,
                Ok(SignalResult::IdentityUnknown) => StopStage::Finished(
                    Ok(StopOutcome::IdentityUnknown),
                ),
                Err(why) => StopStage::Finished(Err(signal_error("killing", vm, &self.bx, why))),
            },
            (StopStage::Reaping, StopEvent::Looked { holder, .. }) => {
                if holder == Holder::Free {
                    StopStage::Finished(Ok(StopOutcome::Killed))
                } else {
                    StopStage::AwaitingReaping
                }
            },
            (StopStage::AwaitingReaping, StopEvent::Waited { expired }) => {
                if expired {
                    StopStage::Finished(Ok(StopOutcome::Wedged))
                } else {
                    StopStage::Reaping
                }
            },
            (stage, _) => stage,
        };
        Stop { bx: self.bx, setup_action: self.setup_action, stage }
    }

    /// How the stop ended; `None` while it is under way.
    pub fn into_result(self) -> (result: Option<Result<StopOutcome, Error>>)
        ensures
            match self@.stage {
                StopStageView::Finished(Ok(ended)) => result == Some(
                    Ok::<StopOutcome, Error>(ended),
                ),
                StopStageView::Finished(Err(error)) => result is Some && result->0 is Err
                    && result->0->Err_0@ == error,
                _ => result is None,
            },
    {
        match self.stage {
            StopStage::Finished(result) => Some(result),
            _ => None,
        }
    }
}

/// A box is said to be stopped only once it was seen that nobody holds it, and
/// a process is killed only after it was identified, asked to stop, and given
/// its time.
pub proof fn stops_are_seen(m: StopView, event: StopEventView)
    requires
        !(m.stage is Finished),
    ensures
        match stop_stage_after(m, event) {
            StopStageView::Finished(Ok(ended)) => {
                ended == StopOutcome::AlreadyStopped || ended == StopOutcome::StoppedGracefully
                    || ended == StopOutcome::Killed ==> (event matches StopEventView::Looked {
                    holder,
                    ..
                } && holder == Holder::Free)
            },
            StopStageView::Killing(vm) => m.stage == StopStageView::Killing(vm) || (m.stage
                == StopStageView::Waiting(vm, SignalResult::Sent) && event == (StopEventView::Waited {
                expired: true,
            })),
            _ => true,
        },
{
}

/// What a stop that ended is reported as.
pub open spec fn stop_report(bx: BoxView, ended: Result<StopOutcome, Refusal>) -> Result<
    Seq<char>,
    Refusal,
> {
    match ended {
        Err(error) => Err(
            error::refusal("could not stop the box - `terra rm --force` takes it away regardless"@)
                + error,
        ),
        Ok(StopOutcome::AlreadyStopped) => Ok("terra: "@ + state::shown(bx) + " is already stopped"@),
        Ok(StopOutcome::StoppedGracefully) => Ok("terra: "@ + state::shown(bx) + " stopped"@),
        Ok(StopOutcome::Killed) => Ok("terra: "@ + state::shown(bx) + " stopped"@),
        Ok(StopOutcome::IdentityUnknown) => Err(
            error::refusal(state::shown(bx) + " is still held but its VM process identity is unknown"@),
        ),
        Ok(StopOutcome::Wedged) => Err(
            error::refusal(
                state::shown(bx)
                    + " is still running after SIGKILL - its VM process is wedged in the kernel"@,
            ),
        ),
    }
}

pub fn report_stop(bx: &BoxRef, ended: Result<StopOutcome, Error>) -> (report: Result<String, Error>)
    ensures
        match report {
            Ok(line) => stop_report(bx@, error::outcome(ended)) == Ok::<_, Refusal>(line@),
            Err(error) => stop_report(bx@, error::outcome(ended)) == Err::<Seq<char>, _>(error@),
        },
{
    match ended {
        Err(error) => Err(
            error.context(
                "could not stop the box - `terra rm --force` takes it away regardless".to_owned(),
            ),
        ),
        Ok(StopOutcome::AlreadyStopped) => {
            let mut line: String = "terra: ".to_owned();
            line.append(bx.describe().as_str());
            line.append(" is already stopped");
            Ok(line)
        },
        Ok(StopOutcome::IdentityUnknown) => {
            let mut message: String = bx.describe();
            message.append(" is still held but its VM process identity is unknown");
            Err(Error::new(message))
        },
        Ok(StopOutcome::Wedged) => {
            let mut message: String = bx.describe();
            message.append(
                " is still running after SIGKILL - its VM process is wedged in the kernel",
            );
            Err(Error::new(message))
        },
        Ok(_) => {
            let mut line: String = "terra: ".to_owned();
            line.append(bx.describe().as_str());
            line.append(" stopped");
            Ok(line)
        },
    }
}

} // verus!
