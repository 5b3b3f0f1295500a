//! Starting, stopping, removing and listing boxes.

use std::collections::BTreeMap;
use terra::cli::{AgentTimeoutArg, BootArgs};
use terra::error::Error;
use terra::ls::{
    FoundBox, format_human_lines, format_tsv_line, list_boxes_on_this_machine, listed_process,
    nothing_listed,
};
use terra::rm::{
    Removal, RemovalAction, RemovalLock, check_there, choose_paths, lock_after_stop,
    lock_was_taken, report_removal,
};
use terra::start::{
    BootMode, EXIT_VM_ALREADY_RUNNING, StartPlan, build_start_plan, choose_boot_mode, exit_code,
    needs_bake,
};
use terra::state::{BoxRef, BoxState, Holder, VmProcess};
use terra::stop::{
    SetupAction, SignalResult, Stop, StopEvent, StopOutcome, StopRequest, report_stop,
};

fn dev() -> BoxRef {
    BoxRef::from_state_dir("/home/box/dev".to_string(), "/p")
}

fn boot() -> BootArgs {
    BootArgs {
        root: false,
        detach: false,
        foreground: false,
        agent: AgentTimeoutArg { agent_timeout: None },
        command: Vec::new(),
    }
}

#[test]
fn a_boot_detaches_joins_runs_here_or_asks() {
    for is_at_a_terminal in [false, true] {
        assert_eq!(
            choose_boot_mode(&BootArgs { detach: true, ..boot() }, is_at_a_terminal).unwrap(),
            BootMode::Detached
        );
        assert_eq!(
            choose_boot_mode(&BootArgs { foreground: true, ..boot() }, is_at_a_terminal).unwrap(),
            BootMode::Foreground
        );
    }
    assert_eq!(choose_boot_mode(&boot(), true).unwrap(), BootMode::DetachedWithJoin);
    let err = choose_boot_mode(&boot(), false).unwrap_err().message();
    assert!(err.contains("-d"), "{err}");
    assert!(err.contains("--foreground"), "{err}");
}

#[test]
fn a_box_that_is_not_up_is_booted_however_it_was_asked_for() {
    for args in [
        boot(),
        BootArgs { detach: true, ..boot() },
        BootArgs { foreground: true, ..boot() },
        BootArgs { root: true, ..boot() },
        BootArgs { command: vec!["npm".to_string()], ..boot() },
    ] {
        for is_at_a_terminal in [false, true] {
            assert_eq!(
                build_start_plan(&dev(), Holder::Free, &args, is_at_a_terminal).unwrap(),
                StartPlan::Boot,
                "{args:?} is_at_a_terminal={is_at_a_terminal}"
            );
        }
    }
}

#[test]
fn a_box_being_baked_is_not_offered_as_a_session_to_join() {
    let bx = dev();
    let err = build_start_plan(&bx, Holder::SettingUp, &boot(), false)
        .expect_err("a box mid-bake must not be offered as a session to join")
        .message();
    assert_eq!(err, bx.setup_holds_it().message());
    assert!(err.contains("being set up"), "{err}");
    assert!(build_start_plan(&bx, Holder::SettingUp, &boot(), true).is_err());
    let detached = BootArgs { detach: true, ..boot() };
    assert!(build_start_plan(&bx, Holder::SettingUp, &detached, false).is_err());

    assert_eq!(
        build_start_plan(&bx, Holder::Running, &boot(), false).unwrap(),
        StartPlan::NothingToDo
    );
}

#[test]
fn boot_flags_are_refused_rather_than_dropped_on_a_running_box() {
    let plan = |args: &BootArgs, terminal| build_start_plan(&dev(), Holder::Running, args, terminal);
    let refused = |args: BootArgs, terminal| {
        plan(&args, terminal).expect_err("a boot flag was dropped on a running box").message()
    };
    let command = || BootArgs { command: vec!["npm".to_string(), "test".to_string()], ..boot() };
    for is_at_a_terminal in [false, true] {
        let err = refused(command(), is_at_a_terminal);
        assert!(err.contains("a command of its own"), "{err}");
        assert!(err.contains("terra exec dev -- …"), "the way to do it: {err}");

        let err = refused(BootArgs { root: true, ..boot() }, is_at_a_terminal);
        assert!(err.contains("as root"), "{err}");
        assert!(err.contains("terra exec dev --root"), "{err}");

        let err = refused(BootArgs { foreground: true, ..boot() }, is_at_a_terminal);
        assert!(err.contains("no VM to run in this process"), "{err}");
        assert!(err.contains("terra stop dev"), "the way to do it: {err}");

        assert_eq!(
            plan(&BootArgs { detach: true, ..boot() }, is_at_a_terminal).unwrap(),
            StartPlan::AlreadyRunning
        );
    }
    assert_eq!(plan(&boot(), true).unwrap(), StartPlan::Attach);
    assert_eq!(plan(&boot(), false).unwrap(), StartPlan::NothingToDo);
    assert_eq!(exit_code(StartPlan::NothingToDo), 125);
    assert_eq!(EXIT_VM_ALREADY_RUNNING, 125);
    assert_eq!(exit_code(StartPlan::AlreadyRunning), 0);
}

#[test]
fn a_root_is_baked_once() {
    let hooks = vec!["apk add git".to_string()];
    assert!(needs_bake(&hooks, true, true));
    assert!(needs_bake(&hooks, false, false));
    assert!(!needs_bake(&hooks, false, true));
    assert!(!needs_bake(&Vec::new(), true, false));
}

const VM: VmProcess = VmProcess { pid: 42, started_at: Some(7) };

fn looked(holder: Holder, vm: Option<VmProcess>) -> StopEvent {
    StopEvent::Looked { holder, vm }
}

fn outcome(stop: Stop) -> Result<StopOutcome, Error> {
    stop.into_result().expect("the stop is not over")
}

#[test]
fn a_box_nobody_holds_is_already_stopped() {
    let stop = Stop::start(&dev(), SetupAction::Refuse);
    assert_eq!(stop.next(), Some(StopRequest::Look));
    let stop = stop.advance(looked(Holder::Free, None));
    assert_eq!(stop.next(), None);
    assert_eq!(outcome(stop).unwrap(), StopOutcome::AlreadyStopped);
}

#[test]
fn a_holder_that_published_no_pid_is_waited_out_and_then_named() {
    let stop = Stop::start(&dev(), SetupAction::Refuse).advance(looked(Holder::Running, None));
    assert_eq!(stop.next(), Some(StopRequest::AwaitGrace));
    let stop = stop.advance(StopEvent::Waited { expired: false });
    assert_eq!(stop.next(), Some(StopRequest::Look));
    let stop = stop
        .advance(looked(Holder::Running, None))
        .advance(StopEvent::Waited { expired: true });
    let err = outcome(stop).unwrap_err().message();
    assert!(err.contains("published no pid"), "{err}");
}

#[test]
fn a_bake_mark_with_no_pid_refuses_without_waiting_out_the_grace() {
    for action in [SetupAction::Refuse, SetupAction::Stop] {
        let stop = Stop::start(&dev(), action).advance(looked(Holder::SettingUp, None));
        let err = outcome(stop).unwrap_err().message();
        assert!(err.contains("being set up"), "{err}");
    }
}

#[test]
fn a_bake_with_a_published_pid_refuses_stop_but_allows_forced_removal() {
    let stop = Stop::start(&dev(), SetupAction::Refuse).advance(looked(Holder::SettingUp, Some(VM)));
    assert!(outcome(stop).is_err());
    let stop = Stop::start(&dev(), SetupAction::Stop).advance(looked(Holder::SettingUp, Some(VM)));
    assert_eq!(stop.next(), Some(StopRequest::Signal { vm: VM, forced: false }));
}

#[test]
fn a_vm_that_takes_the_signal_stops_gracefully() {
    let stop = Stop::start(&dev(), SetupAction::Refuse)
        .advance(looked(Holder::Running, Some(VM)))
        .advance(StopEvent::Signalled(Ok(SignalResult::Sent)));
    assert_eq!(stop.notice(false, 5).unwrap(), "terra: stopping dev (/p) (pid 42)");
    assert_eq!(stop.notice(true, 5), None);
    let stop = stop
        .advance(looked(Holder::Running, Some(VM)))
        .advance(StopEvent::Waited { expired: false })
        .advance(looked(Holder::Free, None));
    assert_eq!(outcome(stop).unwrap(), StopOutcome::StoppedGracefully);
}

fn ignoring(sent: SignalResult) -> Stop {
    Stop::start(&dev(), SetupAction::Refuse)
        .advance(looked(Holder::Running, Some(VM)))
        .advance(StopEvent::Signalled(Ok(sent)))
        .advance(looked(Holder::Running, Some(VM)))
        .advance(StopEvent::Waited { expired: true })
}

#[test]
fn a_vm_that_ignores_the_signal_is_killed_once_the_grace_runs_out() {
    let stop = ignoring(SignalResult::Sent);
    assert_eq!(stop.next(), Some(StopRequest::Signal { vm: VM, forced: true }));
    let notice = stop.notice(true, 5).unwrap();
    assert!(notice.contains("did not stop within 5s - killing pid 42"), "{notice}");
    let stop = stop.advance(StopEvent::Signalled(Ok(SignalResult::Sent)));
    let stop = stop.advance(looked(Holder::Free, None));
    assert_eq!(outcome(stop).unwrap(), StopOutcome::Killed);

    let stop = ignoring(SignalResult::Sent)
        .advance(StopEvent::Signalled(Ok(SignalResult::Sent)))
        .advance(looked(Holder::Running, Some(VM)));
    assert_eq!(stop.next(), Some(StopRequest::AwaitReaping));
    let stop = stop.advance(StopEvent::Waited { expired: true });
    assert_eq!(outcome(stop).unwrap(), StopOutcome::Wedged);
}

#[test]
fn a_process_of_unknown_identity_is_never_killed() {
    assert_eq!(
        outcome(ignoring(SignalResult::IdentityUnknown)).unwrap(),
        StopOutcome::IdentityUnknown
    );
    let stop = ignoring(SignalResult::Sent)
        .advance(StopEvent::Signalled(Ok(SignalResult::IdentityUnknown)));
    assert_eq!(outcome(stop).unwrap(), StopOutcome::IdentityUnknown);
    let stop = ignoring(SignalResult::Sent)
        .advance(StopEvent::Signalled(Err("denied".to_string())));
    assert_eq!(
        outcome(stop).unwrap_err().full_message(),
        "killing the VM process (pid 42) of dev (/p): denied"
    );
}

#[test]
fn a_stop_is_reported_by_how_it_ended() {
    let report = |outcome| report_stop(&dev(), Ok(outcome));
    assert!(report(StopOutcome::AlreadyStopped).unwrap().ends_with("is already stopped"));
    assert!(report(StopOutcome::StoppedGracefully).unwrap().ends_with(" stopped"));
    assert!(report(StopOutcome::Killed).unwrap().ends_with(" stopped"));
    assert!(report(StopOutcome::IdentityUnknown).is_err());
    assert!(report(StopOutcome::Wedged).unwrap_err().message().contains("SIGKILL"));
    let error = report_stop(&dev(), Err(Error::new("no pid".to_string()))).unwrap_err();
    assert!(error.full_message().contains("`terra rm --force` takes it away regardless: no pid"));
}

#[test]
fn a_box_another_took_as_it_stopped_is_not_removed() {
    assert!(matches!(
        lock_after_stop(&dev(), Ok(StopOutcome::StoppedGracefully)),
        Ok(RemovalLock::Take)
    ));
    let err = lock_was_taken(&dev(), dev().contended("")).full_message();
    assert!(err.contains("another terra took"), "{err}");
    assert!(err.contains("as it stopped"), "{err}");

    assert!(matches!(
        lock_after_stop(&dev(), Ok(StopOutcome::Wedged)),
        Ok(RemovalLock::GoWithout { .. })
    ));

    let unanswered = Error::new("published no pid to signal".to_string());
    let err = lock_after_stop(&dev(), Err(unanswered)).unwrap_err().message();
    assert!(err.contains("published no pid"), "{err}");
}

#[test]
fn force_does_not_remove_a_box_with_an_unverified_pid() {
    let err = lock_after_stop(&dev(), Ok(StopOutcome::IdentityUnknown)).unwrap_err().message();
    assert!(err.contains("identity is unknown"), "{err}");
    assert!(err.contains("nothing removed"), "{err}");
}

#[test]
fn removing_a_box_that_was_never_there_fails_rather_than_reporting_success() {
    let dve = BoxRef::from_state_dir("/home/box/dve".to_string(), "/p");
    let err = check_there(&dve, false)
        .expect_err("a box that was never set up must not report a successful removal")
        .message();
    assert!(err.contains("no box 'dve' in /p to remove"), "{err}");
    assert!(err.contains("terra ls"), "the way to look: {err}");
    assert!(check_there(&dev(), true).is_ok());
}

#[test]
fn rm_never_unlinks_the_lock_out_from_under_itself() {
    let files: Vec<String> =
        ["terra.pid", "recipe.yaml", "paths.yaml", "rootfs.img", "terra.log"]
            .iter()
            .map(|name| name.to_string())
            .collect();
    assert_eq!(
        choose_paths(&dev(), &files, true, "paths.yaml"),
        ["/home/box/dev/rootfs.img", "/home/box/dev/terra.log"]
    );
    assert_eq!(
        choose_paths(&dev(), &files, false, "paths.yaml"),
        [
            "/home/box/dev/recipe.yaml",
            "/home/box/dev/paths.yaml",
            "/home/box/dev/rootfs.img",
            "/home/box/dev/terra.log",
        ]
    );
    assert_eq!(report_removal(&dev(), false), "terra: removed /home/box/dev");
    assert!(report_removal(&dev(), true).ends_with("(kept recipe.yaml)"));
}

/// Runs a removal on a map of files; a rename of what is not there fails.
fn remove(disk: &mut BTreeMap<String, &str>, paths: &[&str]) -> (Result<(), Error>, bool) {
    let paths = paths.iter().map(|path| path.to_string()).collect();
    let mut removal = Removal::start(paths, "/d/removed");
    let mut dropped = false;
    while let Some(action) = removal.next() {
        let failure = match action {
            RemovalAction::Rename { from, to } => match disk.remove(&from) {
                Some(content) => {
                    disk.insert(to, content);
                    None
                }
                None => Some("no such file".to_string()),
            },
            RemovalAction::RemoveDir { path } => {
                dropped = !disk.keys().any(|file| file.starts_with(&path));
                None
            }
        };
        removal = removal.advance(failure);
    }
    (removal.into_result().unwrap(), dropped)
}

#[test]
fn a_late_staging_failure_restores_every_removed_entry() {
    let mut disk = BTreeMap::from([("/d/rootfs.img".to_string(), "image")]);
    let (result, dropped) = remove(&mut disk, &["/d/rootfs.img", "/d/missing"]);
    assert_eq!(
        result.unwrap_err().full_message(),
        "staging removal of /d/missing: no such file"
    );
    assert_eq!(disk.get("/d/rootfs.img"), Some(&"image"));
    assert_eq!(disk.len(), 1);
    assert!(dropped, "the staging directory is left empty and removed");
}

#[test]
fn a_removal_moves_everything_aside() {
    let mut disk = BTreeMap::from([("/d/a".to_string(), "1"), ("/d/b".to_string(), "2")]);
    let (result, _) = remove(&mut disk, &["/d/a", "/d/b"]);
    assert!(result.is_ok());
    assert_eq!(disk.get("/d/removed/a"), Some(&"1"));
    assert_eq!(disk.get("/d/removed/b"), Some(&"2"));
    assert_eq!(disk.len(), 2);
}

#[test]
fn a_removal_that_cannot_go_back_says_where_things_are() {
    let removal = Removal::start(vec!["/d/a".to_string(), "/d/b".to_string()], "/d/r")
        .advance(None)
        .advance(Some("full".to_string()))
        .advance(Some("gone".to_string()));
    assert_eq!(
        removal.into_result().unwrap().unwrap_err().full_message(),
        "removal failed: full; rollback failed: restore /d/a from /d/r/a: gone"
    );
    let removal = Removal::start(vec!["/".to_string()], "/d/r");
    assert_eq!(
        removal.into_result().unwrap().unwrap_err().message(),
        "entry has no file name"
    );
}

#[test]
fn a_tsv_line_is_four_fields_in_the_promised_order() {
    let line = format_tsv_line(&dev(), BoxState::Stopped);
    let fields: Vec<&str> = line.split('\t').collect();
    assert_eq!(fields, ["stopped", "dev", "/p", "/home/box/dev"], "{line}");
    let line = format_tsv_line(&dev(), BoxState::NotCreated);
    assert_eq!(line, "not-created\tdev\t/p\t/home/box/dev");
    let odd = BoxRef::from_state_dir("/home/box/dev".to_string(), "/p\tq\nr");
    let line = format_tsv_line(&odd, BoxState::Running);
    assert_eq!(line.split('\t').count(), 4, "{line:?}");
    assert!(!line.contains('\n'), "{line:?}");
}

#[test]
fn a_listing_for_people_points_at_the_files_there_are() {
    assert_eq!(
        format_human_lines(&dev(), BoxState::Running, false),
        "running      dev\n  files: /home/box/dev\n"
    );
    assert_eq!(format_human_lines(&dev(), BoxState::NotCreated, true), "not-created  /p (dev)\n");
    assert_eq!(nothing_listed("/p", true), "terra: no boxes on this machine");
    assert!(nothing_listed("/p", false).contains("no boxes in /p"));
    assert_eq!(listed_process(BoxState::Running, Some(VM)), Some(VM));
    assert_eq!(listed_process(BoxState::Stopped, Some(VM)), None);
}

#[test]
fn unreadable_project_state_does_not_hide_other_boxes() {
    let found = |origin: &str, name: &str, dir: &str| FoundBox {
        origin: origin.to_string(),
        name: name.to_string(),
        dir: dir.to_string(),
    };
    let boxes = list_boxes_on_this_machine(vec![
        found("/a-b", "dev", "/h/2/dev"),
        found("/a/b", "dev", "/h/1/dev"),
        found("/a/b", "ci", "/h/1/ci"),
        found("/a", "dev", "/h/0/dev"),
    ]);
    let listed: Vec<(&str, &str)> = boxes.iter().map(|bx| (bx.project_dir(), bx.name())).collect();
    assert_eq!(listed, [("/a", "dev"), ("/a/b", "ci"), ("/a/b", "dev"), ("/a-b", "dev")]);
}

#[test]
fn force_against_a_holder_that_published_no_pid_refuses() {
    let stop = Stop::start(&dev(), SetupAction::Stop)
        .advance(looked(Holder::Running, None))
        .advance(StopEvent::Waited { expired: true });
    let err = lock_after_stop(&dev(), outcome(stop)).unwrap_err().message();
    assert!(err.contains("published no pid"), "{err}");
}

#[test]
fn force_never_deletes_mid_bake() {
    let stop = Stop::start(&dev(), SetupAction::Stop).advance(looked(Holder::SettingUp, None));
    let err = lock_after_stop(&dev(), outcome(stop)).unwrap_err().message();
    assert!(err.contains("being set up"), "{err}");
}
