//! Talking to the agent of a running box.

use terra::session::{
    AgentGreeting, AgentOutput, AgentWait, ControlRead, ControlReply, ControlStep, DETACH_KEY,
    DETACH_KEY_NAME, GreetingStep, MAX_SESSION_CLIENTS, PumpResult, SessionClient, SessionOutcome,
    Sink, TermSize, detach_all_step, detach_client, ensure_running, exec_status, exit_status_byte,
    format_client_line, judge_greeting, list_clients_step, pump_step, reads_version,
    report_detached, session_outcome, sink_of, size_or_default, size_to_report, split_typed,
    still_serving, stop_waiting, terminal_size, wait_while_running, waiting_hint,
};
use terra::state::{BoxRef, Holder};

fn dev() -> BoxRef {
    BoxRef::from_state_dir("/home/box/dev".to_string(), "/p")
}

const SIZE: TermSize = TermSize { rows: 24, cols: 80 };

#[test]
fn the_escape_key_is_named_the_way_a_terminal_spells_it() {
    assert_eq!(DETACH_KEY_NAME, "Ctrl-\\");
    assert_ne!(DETACH_KEY, 0x1B);
}

#[test]
fn a_client_line_is_id_then_size() {
    assert_eq!(
        format_client_line(&SessionClient { id: 3, reported_term_size: None }),
        "3\t-"
    );
    assert_eq!(
        format_client_line(&SessionClient { id: 7, reported_term_size: Some(SIZE) }),
        "7\t24x80"
    );
}

#[test]
fn an_agent_on_a_different_protocol_is_refused() {
    let judge = |attempt| judge_greeting(&dev(), attempt, 0x54, 3);
    for greeting in [
        AgentGreeting::First(0x55),
        AgentGreeting::Both { magic: 0x55, version: 3, took_request: true },
        AgentGreeting::Both { magic: 0x54, version: 4, took_request: true },
    ] {
        let error = judge(greeting).unwrap_err().message();
        assert!(error.contains("does not speak this terra's protocol"), "{error}");
        assert!(error.contains("`terra dev stop`"), "{error}");
    }
    let both = |took_request| AgentGreeting::Both { magic: 0x54, version: 3, took_request };
    assert!(matches!(judge(both(true)).unwrap(), GreetingStep::Ready));
    assert!(matches!(judge(both(false)).unwrap(), GreetingStep::Again { trouble: None }));
    assert!(matches!(
        judge(AgentGreeting::First(0x54)).unwrap(),
        GreetingStep::Again { trouble: None }
    ));
    assert!(matches!(judge(AgentGreeting::Silent).unwrap(), GreetingStep::Again { trouble: None }));
    match judge(AgentGreeting::TimedOut).unwrap() {
        GreetingStep::Again { trouble } => {
            assert_eq!(trouble.as_deref(), Some("connection attempt timed out"));
        }
        GreetingStep::Ready => panic!("nobody answered"),
    }
    match judge(AgentGreeting::Unreachable("refused".to_string())).unwrap() {
        GreetingStep::Again { trouble } => assert_eq!(trouble.as_deref(), Some("refused")),
        GreetingStep::Ready => panic!("nobody answered"),
    }
    assert!(reads_version(0x54, 0x54) && !reads_version(0x55, 0x54));
}

fn list(replies: Vec<ControlRead>) -> Result<Vec<SessionClient>, String> {
    let mut clients = Vec::new();
    for reply in replies {
        match list_clients_step(&dev(), clients, reply).map_err(|error| error.full_message())? {
            ControlStep::More(list) => clients = list,
            ControlStep::Done(list) => return Ok(list),
        }
    }
    panic!("the listing never ended")
}

fn client(id: u64, size: Option<TermSize>) -> ControlRead {
    ControlRead::Reply(ControlReply::Client { id, size })
}

#[test]
fn list_clients_parses_the_roster_and_keeps_nosize_clients() {
    let size = TermSize { rows: 30, cols: 100 };
    let clients = list(vec![
        client(0, Some(size)),
        client(1, None),
        ControlRead::Reply(ControlReply::Done),
    ])
    .unwrap();
    assert_eq!(
        clients,
        [
            SessionClient { id: 0, reported_term_size: Some(size) },
            SessionClient { id: 1, reported_term_size: None },
        ]
    );
}

#[test]
fn a_listing_that_never_ends_or_strays_is_refused() {
    let flood = (0..=MAX_SESSION_CLIENTS as u64).map(|id| client(id, None)).collect();
    assert_eq!(list(flood).unwrap_err(), "the agent sent more than 1024 session clients");
    let mut full: Vec<ControlRead> =
        (0..MAX_SESSION_CLIENTS as u64).map(|id| client(id, None)).collect();
    full.push(ControlRead::Reply(ControlReply::Done));
    assert_eq!(list(full).unwrap().len(), MAX_SESSION_CLIENTS);
    assert_eq!(
        list(vec![ControlRead::Reply(ControlReply::Detached { id: 1 })]).unwrap_err(),
        "the agent answered a listing with a detach reply"
    );
    assert!(list(vec![ControlRead::Closed]).unwrap_err().contains("listed the session"));
    assert!(list(vec![ControlRead::TimedOut]).unwrap_err().contains("timed out"));
    assert_eq!(
        list(vec![ControlRead::Failed("reset".to_string())]).unwrap_err(),
        "reading the session listing: reset"
    );
}

#[test]
fn detach_replies_must_name_the_requested_client() {
    let reply = |reply| detach_client(&dev(), 9, ControlRead::Reply(reply));
    assert!(reply(ControlReply::Detached { id: 9 }).is_ok());
    for stray in [ControlReply::Detached { id: 8 }, ControlReply::Missing { id: 8 }] {
        let error = reply(stray).unwrap_err().message();
        assert!(error.contains("client 9 with client 8"), "{error}");
        assert_eq!(error, "the agent answered detach for client 9 with client 8");
    }
    for stray in [ControlReply::Done, ControlReply::Client { id: 9, size: None }] {
        assert!(reply(stray).unwrap_err().message().contains("listing reply"));
    }
}

#[test]
fn detach_client_reports_missing() {
    let error = detach_client(&dev(), 9, ControlRead::Reply(ControlReply::Missing { id: 9 }))
        .unwrap_err()
        .message();
    assert!(error.contains("no client 9 is attached to"), "{error}");
    assert!(error.contains("dev"), "{error}");
    assert!(detach_client(&dev(), 9, ControlRead::Closed).is_err());
    assert!(detach_client(&dev(), 9, ControlRead::TimedOut).is_err());
    assert!(detach_client(&dev(), 9, ControlRead::Failed("x".to_string())).is_err());
}

fn detach_all(replies: Vec<ControlReply>) -> Result<u64, String> {
    let mut detached = 0;
    for reply in replies {
        match detach_all_step(&dev(), detached, ControlRead::Reply(reply))
            .map_err(|error| error.message())?
        {
            ControlStep::More(count) => detached = count,
            ControlStep::Done(count) => return Ok(count),
        }
    }
    panic!("the detaching never ended")
}

#[test]
fn detach_all_counts_the_detached() {
    let replies = vec![
        ControlReply::Detached { id: 0 },
        ControlReply::Detached { id: 1 },
        ControlReply::Done,
    ];
    assert_eq!(detach_all(replies), Ok(2));
    assert_eq!(report_detached(&dev(), None, 2), "terra: detached 2 clients from dev (/p)");
    assert_eq!(report_detached(&dev(), Some(3), 0), "terra: detached client 3 from dev (/p)");
    assert!(detach_all(vec![ControlReply::Missing { id: 1 }]).is_err());
    assert!(detach_all(vec![ControlReply::Detached { id: 1 }; 1025]).unwrap_err().contains("1024"));
}

#[test]
fn detach_all_on_an_empty_session_counts_zero() {
    assert_eq!(detach_all(vec![ControlReply::Done]), Ok(0));
    assert!(report_detached(&dev(), None, 0).contains("nobody was attached"));
}

#[test]
fn a_stopped_box_refuses_sessions_and_detach() {
    for verb in ["sessions", "detach"] {
        let error = ensure_running(&dev(), Holder::Free, verb).unwrap_err().message();
        assert!(error.contains("is not running"), "{error}");
        assert!(error.contains("terra dev -d"), "{error}");
        assert!(error.contains(&format!("`terra {verb}`")), "{error}");
        assert!(ensure_running(&dev(), Holder::Running, verb).is_ok());
    }
}

#[test]
fn a_box_mid_bake_is_refused_rather_than_waited_on() {
    let bx = dev();
    let baking = bx.setup_holds_it().message();
    assert!(baking.contains("being set up"), "{baking}");
    for verb in ["exec", "sync"] {
        let err = ensure_running(&bx, Holder::SettingUp, verb).unwrap_err().message();
        assert_eq!(err, baking, "{verb}");
    }
    assert!(ensure_running(&bx, Holder::Running, "exec").is_ok());

    for timeout in [None, Some(5)] {
        let still_waiting = |holder| wait_while_running(&bx, holder, timeout, false);
        assert!(still_waiting(Holder::Running).is_ok(), "a served box is waited on");
        let err = still_waiting(Holder::SettingUp)
            .expect_err("a bake that took the box mid-wait was waited out")
            .message();
        assert_eq!(err, baking);
        assert!(still_waiting(Holder::Running).is_ok());
        let err = still_waiting(Holder::Free).unwrap_err().message();
        assert!(err.contains("stopped before its agent answered"), "{err}");
    }
    assert!(still_serving(&bx, Holder::SettingUp, "stopped").is_err());
}

#[test]
fn the_wait_for_an_agent_is_bounded_only_where_asked() {
    assert!(wait_while_running(&dev(), Holder::Running, None, true).is_ok());
    assert!(wait_while_running(&dev(), Holder::Running, Some(5), false).is_ok());
    let error = wait_while_running(&dev(), Holder::Running, Some(5), true).unwrap_err();
    assert!(error.message().contains("--agent-timeout of 5s"), "{}", error.message());
    let error = wait_while_running(&dev(), Holder::Free, None, false).unwrap_err();
    assert!(error.message().contains("stopped before its agent answered"));
    let error = stop_waiting(error, Some("refused".to_string()));
    assert!(error.full_message().starts_with("last connection attempt: refused: "));
    assert!(waiting_hint(&dev(), "session").contains("--diagnostics --follow"));
}

#[test]
fn a_session_ends_on_the_status_it_was_given_or_says_it_never_got_one() {
    let exit = AgentOutput::Exit { code: 3 };
    assert_eq!(pump_step(Some(&exit), true), Some(PumpResult::Exit(3)));
    assert_eq!(session_outcome(PumpResult::Exit(3)), SessionOutcome::Exited(3));
    assert_eq!(session_outcome(PumpResult::Exit(0)), SessionOutcome::Exited(0));
    assert_eq!(pump_step(None, true), Some(PumpResult::Closed));
    assert_eq!(session_outcome(PumpResult::Closed), SessionOutcome::Closed);
    assert_eq!(exec_status(PumpResult::Exit(3), 141).unwrap(), 3);
    assert!(exec_status(PumpResult::Closed, 141).unwrap_err().message().contains("stopped before"));
    assert!(exec_status(PumpResult::Detached, 141).is_err());
}

#[test]
fn a_detach_frame_ends_the_session_as_a_detach() {
    let out = AgentOutput::Out(b"bye\n".to_vec());
    assert_eq!(sink_of(&out, false), Some(Sink::Out));
    assert_eq!(pump_step(Some(&out), true), None);
    assert_eq!(pump_step(Some(&AgentOutput::Detached), true), Some(PumpResult::Detached));
    assert_eq!(session_outcome(PumpResult::Detached), SessionOutcome::Detached);
    let err = exec_status(PumpResult::Detached, 141).unwrap_err().message();
    assert!(err.contains("detach"), "{err}");
}

#[test]
fn an_exec_whose_reader_left_ends_rather_than_pumping_into_a_closed_pipe() {
    for output in [AgentOutput::Out(b"tick\n".to_vec()), AgentOutput::Diagnostic(b"tick\n".to_vec())] {
        assert_eq!(pump_step(Some(&output), true), None);
        assert_eq!(pump_step(Some(&output), false), Some(PumpResult::Sigpipe));
    }
    assert_eq!(exec_status(PumpResult::Sigpipe, 141).unwrap(), 141);

    let out = AgentOutput::Out(b"built\n".to_vec());
    let err = AgentOutput::Diagnostic(b"warned\n".to_vec());
    assert_eq!(sink_of(&out, true), Some(Sink::Out));
    assert_eq!(sink_of(&err, true), Some(Sink::Diagnostics));
    assert_eq!(pump_step(Some(&AgentOutput::Exit { code: 3 }), true), Some(PumpResult::Exit(3)));
    assert_eq!(exec_status(PumpResult::Exit(3), 141).unwrap(), 3);
}

#[test]
fn a_session_whose_reader_left_detaches_rather_than_pumping_forever() {
    let out = AgentOutput::Diagnostic(b"x".to_vec());
    assert_eq!(pump_step(Some(&out), false), Some(PumpResult::Sigpipe));
    assert_eq!(session_outcome(PumpResult::Sigpipe), SessionOutcome::Detached);
    assert_eq!(sink_of(&out, true), Some(Sink::Diagnostics));
    assert_eq!(sink_of(&out, false), Some(Sink::Out));
    assert_eq!(sink_of(&AgentOutput::Detached, true), None);
}

#[test]
fn what_follows_the_detach_key_goes_nowhere() {
    let typed = split_typed(&vec![b'a', DETACH_KEY, b'b', DETACH_KEY], Some(DETACH_KEY));
    assert_eq!((typed.keys.as_slice(), typed.detaches), (b"a".as_slice(), true));
    let typed = split_typed(&vec![b'a', DETACH_KEY, b'b'], None);
    assert_eq!((typed.keys.len(), typed.detaches), (3, false));
    let typed = split_typed(&b"ab".to_vec(), Some(DETACH_KEY));
    assert_eq!((typed.keys.as_slice(), typed.detaches), (b"ab".as_slice(), false));
}

#[test]
fn sizes_are_reported_when_they_change() {
    assert_eq!(terminal_size(80, 24), Some(SIZE));
    assert_eq!(terminal_size(0, 24), None);
    assert_eq!(size_or_default(None), SIZE);
    assert_eq!(size_to_report(Some(SIZE), None), Some(SIZE));
    assert_eq!(size_to_report(Some(SIZE), Some(SIZE)), None);
    let wide = TermSize { rows: 24, cols: 100 };
    assert_eq!(size_to_report(Some(wide), Some(SIZE)), Some(wide));
    assert_eq!(size_to_report(None, Some(SIZE)), None);
}

#[test]
fn an_exit_status_is_a_byte_or_a_failure() {
    assert_eq!(exit_status_byte(0), 0);
    assert_eq!(exit_status_byte(255), 255);
    assert_eq!(exit_status_byte(256), 1);
    assert_eq!(exit_status_byte(-1), 1);
}

#[test]
fn waiting_remembers_what_last_went_wrong_and_hints_once() {
    let mut wait = AgentWait::new();
    let look = |wait: &mut AgentWait, overdue, holder, expired| {
        wait.look(&dev(), "exec service", overdue, holder, Some(3), expired)
    };
    let (hint, verdict) = look(&mut wait, false, Holder::Running, false);
    assert!(hint.is_none() && verdict.is_ok());
    let met = |wait: &mut AgentWait, attempt| wait.met(&dev(), attempt, 0x54, 3);
    assert!(!met(&mut wait, AgentGreeting::Unreachable("refused".to_string())).unwrap());
    assert!(!met(&mut wait, AgentGreeting::Silent).unwrap());
    let (hint, verdict) = look(&mut wait, true, Holder::Running, false);
    assert!(hint.unwrap().contains("exec service") && verdict.is_ok());
    assert!(look(&mut wait, true, Holder::Running, false).0.is_none());
    let (_, verdict) = look(&mut wait, true, Holder::Running, true);
    let error = verdict.unwrap_err().full_message();
    assert!(error.starts_with("last connection attempt: refused: "), "{error}");
    assert!(error.contains("--agent-timeout of 3s"), "{error}");

    let mut fresh = AgentWait::new();
    let (_, verdict) = look(&mut fresh, false, Holder::Free, false);
    let error = verdict.unwrap_err().full_message();
    assert!(error.ends_with("stopped before its agent answered"), "{error}");
    let both = AgentGreeting::Both { magic: 0x54, version: 3, took_request: true };
    assert!(met(&mut fresh, both).unwrap());
    assert!(met(&mut fresh, AgentGreeting::First(0x55)).is_err());
}
