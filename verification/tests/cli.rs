//! The command line once it is parsed.

use terra::cli::{
    AgentTimeoutArg, BootArgs, Cli, Cmd, CopyArgs, DetachArgs, ExecArgs, LogsArgs, LsArgs, RmArgs,
    SessionsArgs, SetupArgs, ShowArgs, StopArgs, StorageArgs, StorageCmd, build_reversal_hint,
};
use terra::error::Error;
use terra::host::HostOs;
use terra::name::{is_reserved, validate_box_name};

fn no_timeout() -> AgentTimeoutArg {
    AgentTimeoutArg { agent_timeout: None }
}

fn bare_boot() -> BootArgs {
    BootArgs {
        root: false,
        detach: false,
        foreground: false,
        agent: no_timeout(),
        command: Vec::new(),
    }
}

fn cli(name: Option<&str>, cmd: Option<Cmd>, boot: BootArgs) -> Cli {
    Cli { name: name.map(str::to_string), cmd, boot, project: None }
}

fn exec(tty: bool, no_tty: bool) -> ExecArgs {
    ExecArgs {
        root: false,
        tty,
        no_tty,
        agent: no_timeout(),
        command: vec!["true".to_string()],
    }
}

fn copy() -> CopyArgs {
    CopyArgs { src: "./a".to_string(), dst: "/b".to_string(), agent: no_timeout() }
}

fn verbs() -> Vec<(Cmd, &'static str)> {
    vec![
        (Cmd::Setup(SetupArgs { trust_recipe: false, rebuild: false, dry_run: false }), "setup"),
        (Cmd::Exec(exec(false, false)), "exec"),
        (Cmd::Put(copy()), "put"),
        (Cmd::Get(copy()), "get"),
        (Cmd::Stop(StopArgs { wait: 5 }), "stop"),
        (Cmd::Storage(StorageArgs { cmd: StorageCmd::Show }), "storage"),
        (Cmd::Rm(RmArgs { purge: false, force: false, wait: 5 }), "rm"),
        (Cmd::Show(ShowArgs { with_env_values: false }), "show"),
        (Cmd::Ls(LsArgs { all: false, tsv: false }), "ls"),
        (Cmd::Logs(LogsArgs { follow: false, diagnostics: false }), "logs"),
        (Cmd::Sessions(SessionsArgs { agent: no_timeout() }), "sessions"),
        (Cmd::Detach(DetachArgs { id: None, all: true, agent: no_timeout() }), "detach"),
    ]
}

fn message(verdict: Result<(), Error>) -> String {
    verdict.expect_err("this should be refused").message()
}

#[test]
fn a_boot_flag_with_a_verb_is_refused_not_dropped() {
    let refused = [
        // terra dev -d stop
        cli(
            Some("dev"),
            Some(Cmd::Stop(StopArgs { wait: 5 })),
            BootArgs { detach: true, ..bare_boot() },
        ),
        // terra --root exec -- ls
        cli(
            None,
            Some(Cmd::Exec(ExecArgs { command: vec!["ls".to_string()], ..exec(false, false) })),
            BootArgs { root: true, ..bare_boot() },
        ),
        // terra dev --foreground logs
        cli(
            Some("dev"),
            Some(Cmd::Logs(LogsArgs { follow: false, diagnostics: false })),
            BootArgs { foreground: true, ..bare_boot() },
        ),
    ];
    for line in &refused {
        let err = message(line.validate());
        assert!(err.contains("boot flags"), "{err}");
    }
    // terra --root ls
    let err = message(
        cli(
            None,
            Some(Cmd::Ls(LsArgs { all: false, tsv: false })),
            BootArgs { root: true, ..bare_boot() },
        )
        .validate(),
    );
    assert!(err.contains("boot flags"), "{err}");
    assert!(err.contains("terra ls"), "{err}");
    assert!(!err.contains("terra <box> ls"), "{err}");

    // The bare form takes every one of them.
    assert!(cli(Some("dev"), None, BootArgs { detach: true, ..bare_boot() }).validate().is_ok());
    let command = vec!["npm".to_string(), "test".to_string()];
    assert!(cli(Some("dev"), None, BootArgs { command, ..bare_boot() }).validate().is_ok());
}

#[test]
fn ls_is_the_only_verb_that_takes_no_box() {
    let err = message(
        cli(Some("dev"), Some(Cmd::Ls(LsArgs { all: false, tsv: false })), bare_boot()).validate(),
    );
    assert!(err.contains("terra ls"), "{err}");
    assert!(
        cli(None, Some(Cmd::Ls(LsArgs { all: true, tsv: false })), bare_boot())
            .validate()
            .is_ok()
    );
    for (cmd, word) in verbs() {
        assert_eq!(cmd.takes_the_box(), word != "ls", "'{word}'");
    }
}

#[test]
fn the_box_comes_before_the_verb_and_is_always_optional() {
    for named in [true, false] {
        for (cmd, word) in verbs() {
            if word == "ls" {
                continue;
            }
            let name = if named { Some("dev") } else { None };
            assert!(cli(name, Some(cmd), bare_boot()).validate().is_ok(), "{word}");
        }
    }
    let setup = Cmd::Setup(SetupArgs { trust_recipe: false, rebuild: false, dry_run: false });
    assert!(cli(Some("./pi-dev.yaml"), Some(setup), bare_boot()).validate().is_ok());
}

#[test]
fn every_verb_is_worded_the_way_clap_spells_it() {
    for (cmd, word) in verbs() {
        assert_eq!(cmd.verb(), word);
    }
}

#[test]
fn every_terra_word_is_a_reserved_name_and_vice_versa() {
    for word in verbs()
        .iter()
        .map(|(_, word)| *word)
        .chain(["ps", "help", "sync", "completions"])
    {
        assert!(validate_box_name(word).is_err(), "'{word}' must not name a box");
        assert!(is_reserved(word), "'{word}' must be reserved");
    }
    for word in ["dev", "start", "box", "terra", "STOP", "syncs"] {
        assert!(!is_reserved(word), "'{word}' is not a terra word");
    }
}

#[test]
fn an_exec_takes_a_terminal_from_the_flags_before_its_own_stdin() {
    for is_at_a_terminal in [false, true] {
        assert_eq!(exec(false, false).wants_a_terminal(is_at_a_terminal), is_at_a_terminal);
    }
    assert!(exec(true, false).wants_a_terminal(false));
    assert!(exec(true, false).wants_a_terminal(true));
    assert!(!exec(false, true).wants_a_terminal(true));
    assert!(!exec(false, true).wants_a_terminal(false));
}

#[test]
fn the_reversed_spelling_is_named_rather_than_left_to_clap() {
    let build_reversal_hint = |typed: &Vec<String>, bare: &Option<(Cmd, usize)>| {
        build_reversal_hint(typed, bare, HostOs::Linux)
    };
    let typed = |words: &[&str]| -> Vec<String> { words.iter().map(|w| w.to_string()).collect() };
    for (cmd, word) in verbs() {
        let hint = build_reversal_hint(&typed(&[word, "dev"]), &Some((cmd, 0)));
        if word == "ls" {
            assert_eq!(hint, None);
        } else {
            let hint = hint.expect("goes unexplained");
            assert!(hint.contains(&format!("terra dev {word}")), "{hint}");
        }
    }
    // A verb with a word of its own is never guessed at.
    for (cmd, word) in verbs() {
        assert_eq!(build_reversal_hint(&typed(&[word, "dev"]), &Some((cmd, 1))), None, "{word}");
    }
    let setup = || Cmd::Setup(SetupArgs { trust_recipe: false, rebuild: false, dry_run: false });
    let hint = build_reversal_hint(&typed(&["setup", "./ci.yaml"]), &Some((setup(), 0)))
        .expect("the old setup spelling goes unexplained");
    assert!(hint.contains("terra ./ci.yaml setup"), "{hint}");

    let stop = || Some((Cmd::Stop(StopArgs { wait: 5 }), 0));
    assert_eq!(build_reversal_hint(&typed(&["stop"]), &stop()), None);
    assert_eq!(build_reversal_hint(&typed(&["exec", "dev"]), &None), None);
    assert_eq!(build_reversal_hint(&typed(&["stop", "not a box"]), &stop()), None);
    assert_eq!(build_reversal_hint(&typed(&["stop", "dev", "--wait", "5"]), &stop()), None);
    assert_eq!(build_reversal_hint(&typed(&["nonsense", "dev"]), &None), None);
}
