//! What the life of a box comes to: what it is doing, how it is started and
//! stopped, and what is left of it once it is removed.

use crate::cli::{self, BootArgs, Cli, Cmd, ExecArgs};
use crate::config::{self, Components, NetworkMode};
use crate::error::Refusal;
use crate::host::{self, HomeView};
use crate::ls;
use crate::mount::{self, PinnedView};
use crate::path;
use crate::recipe;
use crate::rm::{self, RemovalActionView, RemovalStageView, RemovalView};
use crate::session::{
    self, AgentGreeting, AgentOutput, ControlRead, ControlReply, ControlStep, GreetingStepView,
    PumpResult, SessionClient, SessionOutcome, Sink, TermSize, WaitView,
};
use crate::setup::approve;
use crate::setup::prepare;
use crate::setup::{self, QuestionView};
use crate::start::{self, BootMode, StartPlan};
use crate::state::settings::{self, SettingsReadView};
use crate::state::{self, BoxState, BoxView, FoundView, Holder, VmProcess};
use crate::stop::{
    self, SetupAction, SignalResult, StopEventView, StopOutcome, StopRequest, StopStageView,
    StopView,
};
use crate::text;
use crate::unicode;
use vstd::prelude::*;

verus! {

/// What a box is doing: it runs or is set up while someone holds it, and
/// otherwise has stopped, was never made, or has lost its project.
pub proof fn what_a_box_is_doing(holder: Holder, has_project_dir: bool, has_rootfs: bool)
    ensures
        ({
            let state = state::state_of(holder, has_project_dir, has_rootfs);
            let is_free = holder == Holder::Free;
            &&& state == BoxState::Running <==> holder == Holder::Running
            &&& state == BoxState::SettingUp <==> holder == Holder::SettingUp
            &&& state == BoxState::Stopped <==> is_free && has_project_dir && has_rootfs
            &&& state == BoxState::NotCreated <==> is_free && has_project_dir && !has_rootfs
            &&& state == BoxState::Gone <==> is_free && !has_project_dir
        }),
{
}

/// Who holds a box: nobody where it is not locked; a bake where the line in its
/// pid file says so, and a machine otherwise.
pub proof fn who_holds_a_box(is_locked: bool, pid: u32, started_at: Option<u64>, baking: bool)
    requires
        pid > 0,
    ensures
        ({
            let holder = state::holder_of(is_locked, state::pid_line(pid, started_at, baking));
            &&& holder == Holder::Free <==> !is_locked
            &&& holder == Holder::SettingUp <==> is_locked && baking
            &&& holder == Holder::Running <==> is_locked && !baking
        }),
{
    state::pid_lines_are_read_back(pid, started_at, baking);
}

/// The box of a name lies below the directory of all boxes, in that of its
/// project, under its own name.
pub proof fn boxes_lie_below_their_project(
    project_dir: Seq<char>,
    real_dir: Seq<char>,
    box_home: Seq<char>,
    name: Seq<char>,
)
    ensures
        ({
            let bx = state::box_of(project_dir, real_dir, box_home, name);
            &&& bx.name == name
            &&& bx.project_dir == project_dir
            &&& bx.dir == path::placed(path::placed(box_home, state::slug_of(real_dir)), name)
        }),
{
}

/// The volumes of a box are the files of its directory that are named like one,
/// every one of them and nothing else.
pub proof fn volumes_are_found_by_their_names(bx: BoxView, files: Seq<Seq<char>>, p: Seq<char>)
    ensures
        state::images_among(bx, files).contains(p) <==> exists|f: int|
            0 <= f < files.len() && is_named_like_a_volume(#[trigger] files[f]) && p
                == path::placed(bx.dir, files[f]),
    decreases files.len(),
{
    let all = state::images_among(bx, files);
    if files.len() > 0 {
        let init = files.drop_last();
        let before = state::images_among(bx, init);
        volumes_are_found_by_their_names(bx, init, p);
        lemma_volume_name(files.last());
        if all.contains(p) {
            let k = choose|k: int| 0 <= k < all.len() && all[k] == p;
            if k < before.len() {
                assert(before[k] == p);
                let f = choose|f: int|
                    0 <= f < init.len() && is_named_like_a_volume(#[trigger] init[f]) && p
                        == path::placed(bx.dir, init[f]);
                assert(files[f] == init[f]);
            } else {
                assert(files[files.len() - 1] == files.last());
            }
        }
        if exists|f: int|
            0 <= f < files.len() && is_named_like_a_volume(#[trigger] files[f]) && p
                == path::placed(bx.dir, files[f]) {
            let f = choose|f: int|
                0 <= f < files.len() && is_named_like_a_volume(#[trigger] files[f]) && p
                    == path::placed(bx.dir, files[f]);
            if f < init.len() {
                assert(init[f] == files[f]);
                let k = choose|k: int| 0 <= k < before.len() && before[k] == p;
                assert(all[k] == p);
            } else {
                assert(all[before.len() as int] == p);
            }
        }
    }
}

/// Whether a name is `vol-` and something and `.img`.
pub open spec fn is_named_like_a_volume(name: Seq<char>) -> bool {
    &&& name.len() >= 4
    &&& name.take(4) == seq!['v', 'o', 'l', '-']
    &&& name.skip(name.len() - 4) == seq!['.', 'i', 'm', 'g']
}

proof fn lemma_volume_name(name: Seq<char>)
    ensures
        state::is_volume_file(name) == is_named_like_a_volume(name),
{
    reveal_strlit("vol-");
    reveal_strlit(".img");
    assert("vol-"@ =~= seq!['v', 'o', 'l', '-']);
    assert(".img"@ =~= seq!['.', 'i', 'm', 'g']);
}

/// An image is unused exactly where it is none of the volumes a recipe names.
pub proof fn images_no_recipe_names_are_unused(
    bx: BoxView,
    images: Seq<Seq<char>>,
    configured: Seq<Seq<char>>,
    p: Seq<char>,
)
    ensures
        state::unused_among(bx, images, configured).contains(p) <==> images.contains(p)
            && forall|v: int|
            0 <= v < configured.len() ==> !path::equivalent(
                path::placed(bx.dir, state::volume_file(#[trigger] configured[v])),
                p,
            ),
    decreases images.len(),
{
    let all = state::unused_among(bx, images, configured);
    if images.len() > 0 {
        let init = images.drop_last();
        let before = state::unused_among(bx, init, configured);
        images_no_recipe_names_are_unused(bx, init, configured, p);
        if all.contains(p) {
            let k = choose|k: int| 0 <= k < all.len() && all[k] == p;
            if k < before.len() {
                assert(before[k] == p);
                let m = choose|m: int| 0 <= m < init.len() && init[m] == p;
                assert(images[m] == p);
            } else {
                assert(images[images.len() - 1] == p);
            }
        }
        if images.contains(p) && !state::configured_image(bx, p, configured) {
            let m = choose|m: int| 0 <= m < images.len() && images[m] == p;
            if m < init.len() {
                assert(init[m] == p);
                let k = choose|k: int| 0 <= k < before.len() && before[k] == p;
                assert(all[k] == p);
            } else {
                assert(all[before.len() as int] == p);
            }
        }
    }
}

/// What is listed of a directory is the directories in it whose names are text,
/// every one of them.
pub proof fn directories_are_listed(found: Seq<FoundView>, name: Seq<char>)
    ensures
        state::directories(found).contains(name) <==> exists|i: int|
            0 <= i < found.len() && (#[trigger] found[i]).is_dir && found[i].name == Some(name),
    decreases found.len(),
{
    let all = state::directories(found);
    if found.len() > 0 {
        let init = found.drop_last();
        let before = state::directories(init);
        directories_are_listed(init, name);
        if all.contains(name) {
            let k = choose|k: int| 0 <= k < all.len() && all[k] == name;
            if k < before.len() {
                assert(before[k] == name);
                let i = choose|i: int|
                    0 <= i < init.len() && (#[trigger] init[i]).is_dir && init[i].name == Some(name);
                assert(found[i] == init[i]);
            } else {
                assert(found[found.len() - 1] == found.last());
            }
        }
        if exists|i: int|
            0 <= i < found.len() && (#[trigger] found[i]).is_dir && found[i].name == Some(name) {
            let i = choose|i: int|
                0 <= i < found.len() && (#[trigger] found[i]).is_dir && found[i].name == Some(name);
            if i < init.len() {
                assert(init[i] == found[i]);
                let k = choose|k: int| 0 <= k < before.len() && before[k] == name;
                assert(all[k] == name);
            } else {
                assert(all[before.len() as int] == name);
            }
        }
    }
}

/// What a start does. A box nobody holds is booted, and one that is set up is left
/// to that. One that runs is joined where there is a terminal, and left running
/// where there is none or that was asked for; it cannot be run another way.
pub proof fn what_a_start_does(bx: BoxView, holder: Holder, args: BootArgs, is_at_a_terminal: bool)
    ensures
        ({
            let plan = start::start_plan(bx, holder, args, is_at_a_terminal);
            let plain = args.command@.len() == 0 && !args.root && !args.foreground;
            let is_running = holder == Holder::Running;
            &&& plan is Err <==> holder == Holder::SettingUp || is_running && !plain
            &&& plan is Ok ==> (plan->Ok_0 == StartPlan::Boot <==> holder == Holder::Free)
            &&& plan is Ok ==> (plan->Ok_0 == StartPlan::AlreadyRunning <==> is_running
                && args.detach)
            &&& plan is Ok ==> (plan->Ok_0 == StartPlan::Attach <==> is_running && !args.detach
                && is_at_a_terminal)
            &&& plan is Ok ==> (plan->Ok_0 == StartPlan::NothingToDo <==> is_running
                && !args.detach && !is_at_a_terminal)
        }),
{
}

/// How a box is run: in the background where that was asked for, in this process
/// where that was, else in the background with a terminal joined to it.
pub proof fn how_a_box_is_run(args: BootArgs, is_at_a_terminal: bool)
    ensures
        ({
            let mode = start::boot_mode(args, is_at_a_terminal);
            &&& mode is Err <==> !args.detach && !args.foreground && !is_at_a_terminal
            &&& mode is Ok ==> (mode->Ok_0 == BootMode::Detached <==> args.detach)
            &&& mode is Ok ==> (mode->Ok_0 == BootMode::Foreground <==> args.foreground
                && !args.detach)
        }),
{
}

/// A start that found nothing to do says so with a status of its own; every other
/// succeeds.
pub proof fn idle_starts_have_their_own_status(plan: StartPlan)
    ensures
        start::status_of(plan) == 125 <==> plan == StartPlan::NothingToDo,
        start::status_of(plan) != 125 ==> start::status_of(plan) == 0,
{
}

/// The hooks that make a box run exactly where there are some and the root image
/// has not been through them: it is new, or has no stamp.
pub proof fn hooks_run_once(hooks: nat, fresh_rootfs: bool, has_stamp: bool)
    ensures
        hooks == 0 ==> !start::is_baked_first(hooks, fresh_rootfs, has_stamp),
        hooks > 0 && fresh_rootfs ==> start::is_baked_first(hooks, fresh_rootfs, has_stamp),
        hooks > 0 && !fresh_rootfs ==> start::is_baked_first(hooks, fresh_rootfs, has_stamp)
            == !has_stamp,
{
}

/// A box is set up only while nobody holds it.
pub proof fn only_free_boxes_are_set_up(bx: BoxView, holder: Holder)
    ensures
        prepare::setup_holder_verdict(bx, holder) is Ok <==> holder == Holder::Free,
{
}

/// A recipe goes on to be pinned where nothing was asked or the answer is a yes;
/// one that was refused does not, whatever is answered.
pub proof fn only_a_yes_goes_on(question: QuestionView, answer: Seq<char>)
    ensures
        approve::objection(question, answer) is None <==> match question {
            QuestionView::Refuse(_) => false,
            QuestionView::Ask { default_yes, .. } => setup::says_yes(answer, default_yes),
            _ => true,
        },
{
}

/// A stop from its start on, and what came of each thing it asked for.
pub open spec fn stop_runs(stages: Seq<StopView>, events: Seq<StopEventView>) -> bool {
    &&& stages.len() == events.len() + 1
    &&& stages[0].stage == StopStageView::Looking
    &&& forall|k: int|
        0 <= k < events.len() ==> stages[k + 1] == stop::stop_after(stages[k], #[trigger] events[k])
}

/// Whether a process was seen to hold the box before some step.
pub open spec fn was_seen(
    stages: Seq<StopView>,
    events: Seq<StopEventView>,
    k: int,
    vm: VmProcess,
) -> bool {
    exists|j: int|
        0 <= j < k && stop::stop_asks(stages[j]) == Some(StopRequest::Look) && (#[trigger] events[j]
            matches StopEventView::Looked { holder, vm: seen } && holder != Holder::Free && seen
            == Some(vm))
}

/// Whether a process was asked to stop, and could be, before some step.
pub open spec fn was_asked(
    stages: Seq<StopView>,
    events: Seq<StopEventView>,
    k: int,
    vm: VmProcess,
) -> bool {
    exists|j: int|
        0 <= j < k && stop::stop_asks(stages[j]) == Some(StopRequest::Signal { vm, forced: false })
            && #[trigger] events[j] == StopEventView::Signalled(Ok(SignalResult::Sent))
}

/// Whether the grace ran out before some step.
pub open spec fn grace_ran_out(stages: Seq<StopView>, events: Seq<StopEventView>, k: int) -> bool {
    exists|j: int|
        0 <= j < k && stop::stop_asks(stages[j]) == Some(StopRequest::AwaitGrace)
            && #[trigger] events[j] == (StopEventView::Waited { expired: true })
}

/// Whether any process was signalled before some step, by force or not.
pub open spec fn signalled(stages: Seq<StopView>, k: int, forced: bool) -> bool {
    exists|j: int|
        0 <= j < k && (stop::stop_asks(#[trigger] stages[j]) matches Some(StopRequest::Signal {
            forced: by_force,
            ..
        }) && by_force == forced)
}

spec fn stop_remembers(stages: Seq<StopView>, events: Seq<StopEventView>, k: int) -> bool {
    match stages[k].stage {
        StopStageView::Looking | StopStageView::AwaitingPid => !signalled(stages, k, true)
            && !signalled(stages, k, false),
        StopStageView::Asking(vm) => was_seen(stages, events, k, vm) && !signalled(stages, k, true),
        StopStageView::Watching(vm, sent) => was_seen(stages, events, k, vm) && !signalled(
            stages,
            k,
            true,
        ) && signalled(stages, k, false) && (sent == SignalResult::Sent ==> was_asked(
            stages,
            events,
            k,
            vm,
        )),
        StopStageView::Waiting(vm, sent) => was_seen(stages, events, k, vm) && !signalled(
            stages,
            k,
            true,
        ) && signalled(stages, k, false) && (sent == SignalResult::Sent ==> was_asked(
            stages,
            events,
            k,
            vm,
        )),
        StopStageView::Killing(vm) => was_seen(stages, events, k, vm) && was_asked(
            stages,
            events,
            k,
            vm,
        ) && grace_ran_out(stages, events, k),
        StopStageView::Reaping | StopStageView::AwaitingReaping => signalled(stages, k, true),
        StopStageView::Finished(Ok(StopOutcome::AlreadyStopped)) => !signalled(stages, k, true)
            && !signalled(stages, k, false),
        StopStageView::Finished(Ok(StopOutcome::StoppedGracefully)) => !signalled(stages, k, true)
            && signalled(stages, k, false),
        StopStageView::Finished(Ok(StopOutcome::Killed)) => signalled(stages, k, true),
        StopStageView::Finished(Ok(StopOutcome::Wedged)) => signalled(stages, k, true),
        StopStageView::Finished(_) => true,
    }
}

proof fn lemma_stop_remembers(stages: Seq<StopView>, events: Seq<StopEventView>, k: int)
    requires
        stop_runs(stages, events),
        0 <= k <= events.len(),
    ensures
        stop_remembers(stages, events, k),
    decreases k,
{
    if k > 0 {
        let j = k - 1;
        lemma_stop_remembers(stages, events, j);
        let event = events[j];
        let m = stages[j];
        assert(forall|vm: VmProcess| #[trigger]
            was_seen(stages, events, j, vm) ==> was_seen(stages, events, k, vm));
        assert(forall|vm: VmProcess| #[trigger]
            was_asked(stages, events, j, vm) ==> was_asked(stages, events, k, vm));
        assert forall|forced: bool| #[trigger]
            signalled(stages, k, forced) == (signalled(stages, j, forced) || (stop::stop_asks(
                stages[j],
            ) matches Some(StopRequest::Signal { forced: by_force, .. }) && by_force == forced)) by {
            if signalled(stages, k, forced) {
                let i = choose|i: int|
                    0 <= i < k && (stop::stop_asks(#[trigger] stages[i]) matches Some(
                        StopRequest::Signal { forced: by_force, .. },
                    ) && by_force == forced);
            }
        }
        match m.stage {
            StopStageView::Looking => {
                if let StopStageView::Asking(vm) = stages[k].stage {
                    assert(was_seen(stages, events, k, vm));
                }
            },
            StopStageView::Asking(vm) => {
                if let StopStageView::Watching(_, SignalResult::Sent) = stages[k].stage {
                    assert(events[j] == StopEventView::Signalled(Ok(SignalResult::Sent)));
                    assert(was_asked(stages, events, k, vm));
                }
            },
            StopStageView::Waiting(vm, sent) => {
                if stages[k].stage is Killing {
                    assert(events[j] == (StopEventView::Waited { expired: true }));
                    assert(grace_ran_out(stages, events, k));
                }
            },
            StopStageView::Killing(vm) => {
                if stages[k].stage is Killing {
                    assert(grace_ran_out(stages, events, k));
                }
            },
            _ => {},
        }
    }
}

/// A stop signals only the process it saw holding the box, and by force only after
/// it asked that process to stop and the grace ran out. What it ends with is what
/// it did: nothing where the box was free already, a request where the box stopped
/// on one, and force where that took it.
pub proof fn stops_ask_before_they_kill(
    stages: Seq<StopView>,
    events: Seq<StopEventView>,
    k: int,
)
    requires
        stop_runs(stages, events),
        0 <= k <= events.len(),
    ensures
        stop::stop_asks(stages[k]) matches Some(StopRequest::Signal { vm, forced }) ==> {
            &&& was_seen(stages, events, k, vm)
            &&& forced ==> was_asked(stages, events, k, vm) && grace_ran_out(stages, events, k)
        },
        stages[k].stage matches StopStageView::Finished(Ok(outcome)) ==> {
            &&& outcome == StopOutcome::AlreadyStopped ==> !signalled(stages, k, false)
                && !signalled(stages, k, true)
            &&& outcome == StopOutcome::StoppedGracefully ==> signalled(stages, k, false)
                && !signalled(stages, k, true)
            &&& outcome == StopOutcome::Killed || outcome == StopOutcome::Wedged ==> signalled(
                stages,
                k,
                true,
            )
        },
{
    lemma_stop_remembers(stages, events, k);
}

/// A removal takes every file of a box but its pid file, and but for its recipe and
/// the paths pinned with it where that is kept.
pub proof fn everything_else_of_a_box_goes(
    names: Seq<Seq<char>>,
    kept_recipe: bool,
    pinned_paths_file: Seq<char>,
    name: Seq<char>,
)
    ensures
        rm::going(names, kept_recipe, pinned_paths_file).contains(name) <==> names.contains(name)
            && name != "terra.pid"@ && !(kept_recipe && (name == "recipe.yaml"@ || name
            == pinned_paths_file)),
    decreases names.len(),
{
    let all = rm::going(names, kept_recipe, pinned_paths_file);
    if names.len() > 0 {
        let init = names.drop_last();
        let before = rm::going(init, kept_recipe, pinned_paths_file);
        everything_else_of_a_box_goes(init, kept_recipe, pinned_paths_file, name);
        if all.contains(name) {
            let k = choose|k: int| 0 <= k < all.len() && all[k] == name;
            if k < before.len() {
                assert(before[k] == name);
                let m = choose|m: int| 0 <= m < init.len() && init[m] == name;
                assert(names[m] == name);
            } else {
                assert(names[names.len() - 1] == name);
            }
        }
        if names.contains(name) && name != "terra.pid"@ && !(kept_recipe && (name
            == "recipe.yaml"@ || name == pinned_paths_file)) {
            let m = choose|m: int| 0 <= m < names.len() && names[m] == name;
            if m < init.len() {
                assert(init[m] == name);
                let k = choose|k: int| 0 <= k < before.len() && before[k] == name;
                assert(all[k] == name);
            } else {
                assert(all[before.len() as int] == name);
            }
        }
    }
}

/// A command line is refused exactly where it shapes a boot of a command that
/// boots nothing, or names a box before one that takes none.
pub proof fn boot_flags_are_for_boots(line: Cli)
    ensures
        cli::command_verdict(line) is Err <==> line.cmd is Some && (line.boot.root
            || line.boot.detach || line.boot.foreground || line.boot.agent.agent_timeout is Some
            || line.boot.command@.len() > 0 || line.cmd->0 is Ls && line.name is Some),
{
}

/// A command in a box gets a terminal where terra has one or it was asked for, and
/// never where that was ruled out.
pub proof fn terminals_go_by_what_was_asked(args: ExecArgs, is_at_a_terminal: bool)
    ensures
        args.no_tty ==> !cli::gets_a_terminal(args, is_at_a_terminal),
        !args.no_tty && args.tty ==> cli::gets_a_terminal(args, is_at_a_terminal),
        !args.no_tty && !args.tty ==> cli::gets_a_terminal(args, is_at_a_terminal)
            == is_at_a_terminal,
{
}

/// An agent is waited for while its box runs and there is time.
pub proof fn running_boxes_are_waited_for(
    bx: BoxView,
    holder: Holder,
    stopped: Seq<char>,
    timeout: Option<u64>,
    expired: bool,
)
    ensures
        session::serving(bx, holder, stopped) is Ok <==> holder == Holder::Running,
        session::waiting(bx, holder, timeout, expired) is Ok <==> holder == Holder::Running && !(
        timeout is Some && expired),
{
}

/// An agent is refused exactly where it greets with another byte than this program
/// goes by; one that has not said enough yet is tried again, and what went wrong
/// with reaching it is remembered.
pub proof fn greetings_are_judged_by_their_bytes(
    bx: BoxView,
    attempt: AgentGreeting,
    magic: u8,
    version: u8,
)
    ensures
        session::greeting(bx, attempt, magic, version) is Err <==> match attempt {
            AgentGreeting::First(byte) => byte != magic,
            AgentGreeting::Both { magic: byte, version: number, .. } => byte != magic || number
                != version,
            _ => false,
        },
        attempt matches AgentGreeting::Unreachable(why) ==> session::greeting(
            bx,
            attempt,
            magic,
            version,
        ) == Ok::<_, crate::error::Refusal>(GreetingStepView::Again { trouble: Some(why@) }),
{
}

/// A listing of clients grows by each that the agent names, in the order it names
/// them and as it does, and ends when the agent says so; anything else fails it.
pub proof fn clients_are_listed_as_they_come(
    bx: BoxView,
    clients: Seq<SessionClient>,
    read: ControlRead,
)
    ensures
        match session::listing_step(bx, clients, read) {
            Ok(ControlStep::More(more)) => more.len() == clients.len() + 1 && more.drop_last()
                == clients && read == ControlRead::Reply(
                ControlReply::Client {
                    id: more.last().id,
                    size: more.last().reported_term_size,
                },
            ),
            Ok(ControlStep::Done(all)) => all == clients && read == ControlRead::Reply(
                ControlReply::Done,
            ),
            Err(_) => !(read is Reply) || !(read->Reply_0 is Done) && (read->Reply_0 is Client
                ==> clients.len() >= session::MAX_SESSION_CLIENTS),
        },
{
    if let Ok(ControlStep::More(more)) = session::listing_step(bx, clients, read) {
        assert(more.drop_last() =~= clients);
    }
}

/// A client was detached exactly where the agent says so of that client.
pub proof fn the_client_asked_for_is_detached(bx: BoxView, client_id: u64, read: ControlRead)
    ensures
        session::detached_verdict(bx, client_id, read) is Ok <==> read == ControlRead::Reply(
            ControlReply::Detached { id: client_id },
        ),
{
}

/// Detaching everyone counts each client the agent names, and ends with that count
/// when the agent says so.
pub proof fn detached_clients_are_counted(bx: BoxView, detached: u64, read: ControlRead)
    ensures
        match session::detaching_step(bx, detached, read) {
            Ok(ControlStep::More(more)) => more == detached + 1 && (read matches ControlRead::Reply(
                reply,
            ) && reply is Detached),
            Ok(ControlStep::Done(all)) => all == detached && read == ControlRead::Reply(
                ControlReply::Done,
            ),
            Err(_) => read != ControlRead::Reply(ControlReply::Done),
        },
{
}

/// What is typed goes to the box up to the key that detaches, and that key only
/// detaches; without such a key everything goes.
pub proof fn typing_goes_to_the_box(bytes: Seq<u8>, escape: Option<u8>)
    ensures
        ({
            let at = session::typed_until(bytes, escape);
            &&& 0 <= at <= bytes.len()
            &&& escape is None ==> at == bytes.len()
            &&& escape matches Some(key) ==> {
                &&& forall|i: int| 0 <= i < at ==> #[trigger] bytes[i] != key
                &&& at < bytes.len() ==> bytes[at] == key
            }
        }),
    decreases bytes.len(),
{
    if let Some(key) = escape {
        if bytes.len() > 0 && bytes[0] != key {
            let rest = bytes.drop_first();
            typing_goes_to_the_box(rest, escape);
            let at = session::typed_until(bytes, escape);
            assert forall|i: int| 0 <= i < at implies #[trigger] bytes[i] != key by {
                if i > 0 {
                    assert(rest[i - 1] == bytes[i]);
                }
            }
        }
    }
}

/// What a box sends is written where it belongs, and how it ends is told: the
/// status of a command is the one the box gives it.
pub proof fn what_a_box_says_is_passed_on(output: AgentOutput, has_diagnostics: bool, wrote: bool)
    ensures
        session::goes_to(output, has_diagnostics) == (if output is Out {
            Some(Sink::Out)
        } else if output is Diagnostic {
            if has_diagnostics {
                Some(Sink::Diagnostics)
            } else {
                Some(Sink::Out)
            }
        } else {
            None
        }),
        output matches AgentOutput::Exit { code } ==> session::pumped(Some(output), wrote) == Some(
            PumpResult::Exit(code),
        ),
        output is Detached ==> session::pumped(Some(output), wrote) == Some(PumpResult::Detached),
        output is Out || output is Diagnostic ==> (session::pumped(Some(output), wrote) is None
            <==> wrote),
        session::pumped(None, wrote) == Some(PumpResult::Closed),
{
}

/// The status of a command that ran is its own, as far as a process can pass it
/// on; a box that stopped before has none to give.
pub proof fn statuses_are_passed_on(code: i32, sigpipe_status: i32)
    ensures
        session::status_after(PumpResult::Exit(code), sigpipe_status) == Ok::<
            _,
            crate::error::Refusal,
        >(code),
        session::status_after(PumpResult::Sigpipe, sigpipe_status) == Ok::<
            _,
            crate::error::Refusal,
        >(sigpipe_status),
        session::status_after(PumpResult::Closed, sigpipe_status) is Err,
        session::status_after(PumpResult::Detached, sigpipe_status) is Err,
        session::outcome_of(PumpResult::Exit(code)) == SessionOutcome::Exited(code),
        session::outcome_of(PumpResult::Closed) == SessionOutcome::Closed,
        session::outcome_of(PumpResult::Detached) == SessionOutcome::Detached,
        session::outcome_of(PumpResult::Sigpipe) == SessionOutcome::Detached,
        0 <= code <= 255 ==> session::status_byte(code) as int == code,
        !(0 <= code <= 255) ==> session::status_byte(code) == 1,
{
}

/// A terminal without rows or columns has no size; a size is reported where it
/// changed, and 24 by 80 stands for one that is not known.
pub proof fn sizes_are_reported_as_they_change(
    cols: u16,
    rows: u16,
    read: Option<TermSize>,
    last: Option<TermSize>,
)
    ensures
        session::size_of_terminal(cols, rows) is Some <==> cols > 0 && rows > 0,
        session::size_of_terminal(cols, rows) matches Some(size) ==> size.cols == cols && size.rows
            == rows,
        session::size_that_changed(read, last) == (if read == last {
            None
        } else {
            read
        }),
        session::size_or_usual(None) == (TermSize { rows: 24, cols: 80 }),
        read matches Some(size) ==> session::size_or_usual(read) == size,
{
}

/// No two verbs are spelled alike.
pub proof fn verbs_are_told_apart(a: Cmd, b: Cmd)
    requires
        a is Setup != b is Setup || a is Exec != b is Exec || a is Put != b is Put || a is Get
            != b is Get || a is Logs != b is Logs || a is Sessions != b is Sessions || a is Detach
            != b is Detach || a is Show != b is Show || a is Ls != b is Ls || a is Stop != b is Stop
            || a is Storage != b is Storage || a is Rm != b is Rm,
    ensures
        cli::verb_of(a) != cli::verb_of(b),
{
    reveal_strlit("setup");
    reveal_strlit("exec");
    reveal_strlit("put");
    reveal_strlit("get");
    reveal_strlit("logs");
    reveal_strlit("sessions");
    reveal_strlit("detach");
    reveal_strlit("show");
    reveal_strlit("ls");
    reveal_strlit("stop");
    reveal_strlit("storage");
    reveal_strlit("rm");
    let (x, y) = (cli::verb_of(a), cli::verb_of(b));
    assert(x.len() != y.len() || x[0] != y[0] || x[1] != y[1] || x[2] != y[2]);
}

/// A box that is locked, and whose pid file bears no mark of a bake, runs.
pub proof fn lines_without_the_mark_are_no_bakes(line: Seq<char>)
    requires
        !unicode::words(line).contains("bake"@),
    ensures
        state::holder_of(true, line) == Holder::Running,
{
}

/// A directory that is set is gone by where it is absolute once `~` stands for
/// the home directory, and refused where it is not; one that is not set lies
/// below the directory of terra in the home directory.
pub proof fn directories_lie_where_they_are_set(
    home: HomeView,
    setting: Seq<char>,
    field: Seq<char>,
    usual: Seq<char>,
)
    ensures
        ({
            let found = state::directory_path(home, Some(setting), field, usual);
            let meant = recipe::expanded(setting, home);
            &&& found is Ok <==> meant is Ok && host::is_absolute(meant->Ok_0, home.os)
            &&& found is Ok ==> found == meant
        }),
        ({
            let found = state::directory_path(home, None, field, usual);
            &&& found is Ok <==> home.dir is Ok
            &&& home.dir is Ok && home.dir->Ok_0.len() > 0 && home.dir->Ok_0.last() != '/'
                && usual.len() > 0 && usual[0] != '/' ==> found->Ok_0 == home.dir->Ok_0
                + "/.terra/"@ + usual
        }),
{
    reveal_strlit(".terra");
    reveal_strlit("/.terra/");
    if let Ok(dir) = home.dir {
        if dir.len() > 0 && dir.last() != '/' && usual.len() > 0 && usual[0] != '/' {
            crate::basics::paths_are_put_behind_directories(dir, ".terra"@);
            let terra = path::placed(dir, ".terra"@);
            assert(terra.last() == 'a');
            crate::basics::paths_are_put_behind_directories(terra, usual);
            assert(terra + seq!['/'] + usual =~= dir + "/.terra/"@ + usual);
        }
    }
}

/// Settings are what the file says; a file that is missing sets nothing, and
/// one that cannot be read or makes no sense is refused.
pub proof fn settings_are_what_the_file_says(
    home: HomeView,
    read: SettingsReadView,
)
    ensures
        settings::settings_of(home, read) is Ok <==> home.dir is Ok && (read is Missing
            || read is Read),
        settings::settings_of(home, read) is Ok ==> match read {
            SettingsReadView::Read(said) => settings::settings_of(home, read)->Ok_0 == said,
            _ => settings::settings_of(home, read)->Ok_0.boxes is None && settings::settings_of(
                home,
                read,
            )->Ok_0.cache is None,
        },
{
}

/// Whoever waits in vain is told what the last attempt came to, before the
/// rest; an attempt that says nothing leaves what was said before.
pub proof fn the_last_attempt_is_told(
    wait: WaitView,
    why: Seq<char>,
    refused: Refusal,
)
    ensures
        session::attempted(
            wait,
            GreetingStepView::Again { trouble: Some(why) },
        ).last_connect_error == Some(why),
        session::attempted(wait, GreetingStepView::Again { trouble: None }) == wait,
        session::waited_in_vain(refused, None) == refused,
        ({
            let told = session::waited_in_vain(refused, Some(why));
            &&& told.len() == refused.len() + 1
            &&& told.skip(1) == refused
            &&& told[0] == "last connection attempt: "@ + why
        }),
{
    assert(session::waited_in_vain(refused, Some(why)).skip(1) =~= refused);
}

/// A recipe that says nothing asks for a small machine with a shell: it shares
/// nothing with the host, reaches nothing, publishes nothing and runs nothing
/// as root.
pub proof fn recipes_that_say_nothing_grant_nothing(components: Components)
    ensures
        ({
            let cfg = config::default_config(components);
            &&& cfg.hw.cpus == 2
            &&& cfg.hw.mem_mib == 1024
            &&& cfg.hw.rootfs_mib == 512
            &&& cfg.components == components
            &&& cfg.mounts.len() == 0
            &&& cfg.volumes.len() == 0
            &&& cfg.network.mode == NetworkMode::Allowlist
            &&& cfg.network.allow.len() == 0
            &&& cfg.network.hosts.len() == 0
            &&& cfg.network.ports.len() == 0
            &&& cfg.hooks.on_create.len() == 0
            &&& cfg.hooks.on_start.len() == 0
            &&& cfg.hooks.pre_stop.len() == 0
            &&& cfg.daemons.len() == 0
            &&& cfg.sudo.len() == 0
            &&& cfg.env.len() == 0
            &&& cfg.env_file is None
            &&& cfg.workload.entrypoint == "/bin/sh"@
            &&& cfg.workload.args.len() == 0
            &&& cfg.workload.workdir is None
        }),
{
}

/// Paths that are the ones stored are not stored again; others are stored
/// where that was asked for, and refused where it was not.
pub proof fn paths_are_pinned_anew_only_on_request(
    name: Seq<char>,
    stored: Option<PinnedView>,
    paths: PinnedView,
)
    ensures
        ({
            let is_same = stored is Some && mount::same_pins(stored->0, paths);
            &&& is_same ==> approve::paths_to_pin(name, stored, paths, true) == Ok::<_, Refusal>(
                None::<PinnedView>,
            )
            &&& is_same ==> approve::paths_to_pin(name, stored, paths, false) == Ok::<_, Refusal>(
                None::<PinnedView>,
            )
            &&& !is_same ==> approve::paths_to_pin(name, stored, paths, true) == Ok::<_, Refusal>(
                Some(paths),
            )
            &&& !is_same ==> approve::paths_to_pin(name, stored, paths, false) is Err
        }),
{
}

/// A stop that looks at a box for the first time is done where nobody holds
/// it. A box that is being set up is left alone, unless that may be stopped
/// too and its process is known. Any other is asked to stop, as soon as its
/// process is known.
pub proof fn first_looks_decide_on_a_stop(m: StopView, holder: Holder, vm: Option<VmProcess>)
    requires
        m.stage is Looking,
    ensures
        ({
            let next = stop::stop_after(m, StopEventView::Looked { holder, vm });
            let is_spared = holder == Holder::SettingUp && (m.setup_action == SetupAction::Refuse
                || vm is None);
            &&& next.stage == StopStageView::Finished(Ok(StopOutcome::AlreadyStopped)) <==> holder
                == Holder::Free
            &&& (next.stage matches StopStageView::Finished(Err(_))) <==> is_spared
            &&& holder != Holder::Free && !is_spared && vm is Some ==> stop::stop_asks(next)
                == Some(StopRequest::Signal { vm: vm->0, forced: false })
            &&& holder == Holder::Running && vm is None ==> {
                &&& stop::stop_asks(next) == Some(StopRequest::AwaitGrace)
                &&& stop::stop_asks(stop::stop_after(next, StopEventView::Waited { expired: false }))
                    == Some(StopRequest::Look)
                &&& stop::stop_after(
                    next,
                    StopEventView::Waited { expired: true },
                ).stage matches StopStageView::Finished(Err(_))
            }
        }),
{
}

/// A box that was asked to stop is watched until it is free, and killed once
/// its time has run out, unless nobody can tell which process it is. One that
/// was killed is watched as well, and given up once that time has run out.
pub proof fn boxes_are_watched_until_they_are_free(
    m: StopView,
    vm: VmProcess,
    sent: SignalResult,
    holder: Holder,
    seen: Option<VmProcess>,
)
    ensures
        ({
            let look = StopEventView::Looked { holder, vm: seen };
            let asked = StopView { stage: StopStageView::Asking(vm), ..m };
            let watching = stop::stop_after(asked, StopEventView::Signalled(Ok(sent)));
            let waiting = stop::stop_after(watching, look);
            let over = stop::stop_after(waiting, StopEventView::Waited { expired: true });
            &&& stop::stop_asks(watching) == Some(StopRequest::Look)
            &&& holder == Holder::Free ==> waiting.stage == StopStageView::Finished(
                Ok(StopOutcome::StoppedGracefully),
            )
            &&& holder != Holder::Free ==> {
                &&& stop::stop_asks(waiting) == Some(StopRequest::AwaitGrace)
                &&& stop::stop_after(waiting, StopEventView::Waited { expired: false }) == watching
                &&& sent == SignalResult::Sent ==> stop::stop_asks(over) == Some(
                    StopRequest::Signal { vm, forced: true },
                )
                &&& sent == SignalResult::IdentityUnknown ==> over.stage == StopStageView::Finished(
                    Ok(StopOutcome::IdentityUnknown),
                )
            }
        }),
        ({
            let look = StopEventView::Looked { holder, vm: seen };
            let killing = StopView { stage: StopStageView::Killing(vm), ..m };
            let killed = stop::stop_after(killing, StopEventView::Signalled(Ok(sent)));
            let reaping = stop::stop_after(killed, look);
            &&& sent == SignalResult::IdentityUnknown ==> killed.stage == StopStageView::Finished(
                Ok(StopOutcome::IdentityUnknown),
            )
            &&& sent == SignalResult::Sent ==> {
                &&& stop::stop_asks(killed) == Some(StopRequest::Look)
                &&& holder == Holder::Free ==> reaping.stage == StopStageView::Finished(
                    Ok(StopOutcome::Killed),
                )
                &&& holder != Holder::Free ==> {
                    &&& stop::stop_asks(reaping) == Some(StopRequest::AwaitReaping)
                    &&& stop::stop_after(reaping, StopEventView::Waited { expired: false })
                        == killed
                    &&& stop::stop_after(reaping, StopEventView::Waited { expired: true }).stage
                        == StopStageView::Finished(Ok(StopOutcome::Wedged))
                }
            }
        }),
{
}

/// A signal that cannot be sent ends a stop, with why.
pub proof fn signals_that_fail_end_a_stop(m: StopView, vm: VmProcess, why: Seq<char>)
    requires
        m.stage == StopStageView::Asking(vm) || m.stage == StopStageView::Killing(vm),
    ensures
        stop::stop_after(
            m,
            StopEventView::Signalled(Err(why)),
        ).stage matches StopStageView::Finished(Err(said)) && said.len() == 2 && said[1] == why,
{
}

/// The path of a box is short enough where its sockets can be named in as many
/// bytes as the host allows, and not a byte more.
pub proof fn sockets_must_fit(bx: BoxView, max: nat)
    requires
        bx.dir.len() > 0,
        bx.dir.last() != '/',
    ensures
        state::sockets_verdict(bx, max) is Ok <==> text::utf8_len(bx.dir) + 2 <= max,
{
    reveal_strlit("c");
    reveal_strlit("/c");
    crate::basics::paths_are_put_behind_directories(bx.dir, "c"@);
    assert(bx.dir + seq!['/'] + "c"@ =~= bx.dir + "/c"@);
    text::lemma_utf8_len_add(bx.dir, "/c"@);
    assert(vstd::utf8::is_ascii_chars("/c"@));
    vstd::utf8::is_ascii_chars_encode_utf8("/c"@);
}

/// The name of an image is that of the root or of a volume, and a volume is
/// called by one name: not an empty one, no dots alone, and no slash of either
/// kind in it.
pub proof fn images_that_can_be_named(bx: BoxView, name: Seq<char>, volume: Seq<char>)
    ensures
        state::named_image(bx, "rootfs.img"@) is Some,
        state::named_image(bx, state::volume_file(volume)) is Some <==> {
            &&& volume.len() > 0
            &&& volume != seq!['.']
            &&& volume != seq!['.', '.']
            &&& !volume.contains('/')
            &&& !volume.contains('\\')
        },
        state::named_image(bx, name) is Some && name != "rootfs.img"@ ==> name
            == state::volume_file(name.subrange(4, name.len() - 4)),
{
    reveal_strlit("rootfs.img");
    reveal_strlit("vol-");
    reveal_strlit(".img");
    reveal_strlit(".");
    reveal_strlit("..");
    assert("."@ =~= seq!['.']);
    assert(".."@ =~= seq!['.', '.']);
    let file = state::volume_file(volume);
    assert(file.subrange(4, file.len() - 4) =~= volume);
    assert(file[0] == 'v');
    crate::basics::texts_begin_and_end("vol-"@, volume + ".img"@, file);
    crate::basics::texts_begin_and_end("vol-"@ + volume, ".img"@, file);
    assert("vol-"@ + (volume + ".img"@) =~= file);
    assert("vol-"@ + volume + ".img"@ =~= file);
    if state::named_image(bx, name) is Some && name != "rootfs.img"@ {
        crate::basics::texts_begin_and_end("vol-"@, ".img"@, name);
        let inner = name.subrange(4, name.len() - 4);
        assert(name =~= "vol-"@ + inner + ".img"@) by {
            assert(name.take(4) =~= "vol-"@) by {
                assert(name =~= "vol-"@ + name.skip(4));
            }
            assert(name.skip(name.len() - 4) =~= ".img"@) by {
                assert(name =~= name.take(name.len() - 4) + ".img"@);
            }
        }
    }
}

/// A box goes after it stopped, with its lock. One that outlived being killed
/// goes without it, and that is said; one whose process nobody can tell stays,
/// and so does one that could not be stopped.
pub proof fn boxes_go_once_they_stopped(bx: BoxView, stopped: Result<StopOutcome, Refusal>)
    ensures
        ({
            let lock = rm::removal_lock(bx, stopped);
            &&& lock is Err <==> stopped is Err || stopped == Ok::<_, Refusal>(
                StopOutcome::IdentityUnknown,
            )
            &&& stopped is Err ==> lock == Err::<Option<Seq<char>>, _>(stopped->Err_0)
            &&& lock is Ok ==> (lock->Ok_0 is Some <==> stopped == Ok::<_, Refusal>(
                StopOutcome::Wedged,
            ))
        }),
{
}

/// The file that says of which project boxes are holds its path, whatever
/// blanks stand around it; with nothing else in it, it says nothing.
pub proof fn origins_are_read_without_blanks(project: Seq<char>, blanks: Seq<char>)
    requires
        project.len() > 0,
        !unicode::blank(project[0]),
        !unicode::blank(project.last()),
        forall|i: int| 0 <= i < blanks.len() ==> unicode::blank(#[trigger] blanks[i]),
    ensures
        state::origin_in(project) == Some(project),
        state::origin_in(project + blanks) == Some(project),
        state::origin_in(blanks) is None,
{
    crate::basics::texts_without_outer_blanks_are_trimmed(project);
    lemma_trailing_blanks(project, blanks);
    assert((project + blanks)[0] == project[0]);
    assert(unicode::leading_blanks(project + blanks) == 0);
    assert((project + blanks).skip(0) =~= project + blanks);
    lemma_all_blanks(blanks);
    assert(blanks.skip(blanks.len() as int) =~= Seq::empty());
}

proof fn lemma_trailing_blanks(text: Seq<char>, blanks: Seq<char>)
    requires
        text.len() > 0,
        !unicode::blank(text.last()),
        forall|i: int| 0 <= i < blanks.len() ==> unicode::blank(#[trigger] blanks[i]),
    ensures
        unicode::without_trailing_blanks(text + blanks) == text,
    decreases blanks.len(),
{
    let whole = text + blanks;
    if blanks.len() == 0 {
        assert(whole =~= text);
    } else {
        let init = blanks.drop_last();
        assert forall|i: int| 0 <= i < init.len() implies unicode::blank(#[trigger] init[i]) by {
            assert(init[i] == blanks[i]);
        }
        lemma_trailing_blanks(text, init);
        assert(whole.drop_last() =~= text + init);
        assert(whole.last() == blanks[blanks.len() - 1]);
    }
}

proof fn lemma_all_blanks(blanks: Seq<char>)
    requires
        forall|i: int| 0 <= i < blanks.len() ==> unicode::blank(#[trigger] blanks[i]),
    ensures
        unicode::leading_blanks(blanks) == blanks.len(),
    decreases blanks.len(),
{
    if blanks.len() > 0 {
        assert(unicode::blank(blanks[0]));
        let rest = blanks.drop_first();
        assert forall|i: int| 0 <= i < rest.len() implies unicode::blank(#[trigger] rest[i]) by {
            assert(rest[i] == blanks[i + 1]);
        }
        lemma_all_blanks(rest);
    }
}

/// A box is listed with its process only while it runs.
pub proof fn running_boxes_are_listed_with_their_process(state: BoxState, vm: VmProcess)
    ensures
        ls::process_listed(state, Some(vm)) == Some(vm) <==> state == BoxState::Running,
        ls::process_listed(state, Some(vm)) is None <==> state != BoxState::Running,
        ls::process_listed(state, None) is None,
{
}

/// What is removed is moved aside, one after the other, each under its own
/// name, and it is all gone once the last was moved.
pub proof fn removals_move_one_after_the_other(m: RemovalView, i: int)
    requires
        0 <= i < m.paths.len(),
        forall|k: int|
            0 <= k < m.paths.len() ==> path::file_name(#[trigger] m.paths[k]) is Some,
    ensures
        ({
            let moving = RemovalView { stage: RemovalStageView::Moving(i), ..m };
            let next = rm::removal_after(moving, None);
            &&& rm::removal_asks(moving) == Some(
                RemovalActionView::Rename {
                    from: m.paths[i],
                    to: path::placed(m.removed_dir, path::file_name(m.paths[i])->0),
                },
            )
            &&& i + 1 < m.paths.len() ==> next.stage == RemovalStageView::Moving(i + 1)
            &&& i + 1 == m.paths.len() ==> next.stage == RemovalStageView::Finished(Ok(()))
        }),
{
    if i + 1 < m.paths.len() {
        assert(path::file_name(m.paths[i + 1]) is Some);
    }
}

/// Where one cannot be moved, those before it are put back, the last of them
/// first; then the directory they were in goes, and why it failed is told.
pub proof fn removals_that_fail_put_everything_back(
    m: RemovalView,
    i: int,
    next: int,
    why: Seq<char>,
)
    requires
        0 <= next < i < m.paths.len(),
    ensures
        ({
            let moving = RemovalView { stage: RemovalStageView::Moving(i), ..m };
            let first = RemovalView { stage: RemovalStageView::Moving(0), ..m };
            let back = RemovalView {
                stage: RemovalStageView::Returning { next, failed: i, why },
                ..m
            };
            let dropping = RemovalView { stage: RemovalStageView::Dropping { failed: i, why }, ..m };
            let drop = Some(RemovalActionView::RemoveDir { path: m.removed_dir });
            &&& rm::removal_after(moving, Some(why)).stage == (RemovalStageView::Returning {
                next: i - 1,
                failed: i,
                why,
            })
            &&& rm::removal_asks(rm::removal_after(first, Some(why))) == drop
            &&& rm::removal_asks(back) == Some(
                RemovalActionView::Rename {
                    from: path::placed(m.removed_dir, path::file_name(m.paths[next])->0),
                    to: m.paths[next],
                },
            )
            &&& next > 0 ==> rm::removal_after(back, None).stage == (RemovalStageView::Returning {
                next: next - 1,
                failed: i,
                why,
            })
            &&& next == 0 ==> rm::removal_asks(rm::removal_after(back, None)) == drop
            &&& rm::removal_after(dropping, None).stage matches RemovalStageView::Finished(
                Err(said),
            ) && said.len() == 2 && said[1] == why
        }),
{
}

} // verus!
