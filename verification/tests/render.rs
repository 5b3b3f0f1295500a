//! What is printed: the page a recipe is approved on, and words of a command.

use terra::config::{
    Components, Config, Hooks, Hw, Mount, Network, NetworkComponent, NetworkMode, StaticDnsRecord,
    Workload,
};
use terra::error::{Error, is_stdout_broken_pipe};
use terra::name::validate_box_name;
use terra::network::{describe, parse_port, parse_port_mappings};
use terra::render::{
    REDACTED_ENV_VALUE, WriteFailure, escape_printable, finish_stdout_write, format_workload_line,
    quote_shell_word, redact_config_env, render_policy_summary,
};
use terra::show::{divergence_note, settle_env, settle_mounts};
use terra::state::ORIGIN_FILE;

fn empty() -> Config {
    Config::with_components(Components { memory_mib: 16, total_memory_mib: 64, network: None })
}

fn texts(list: &[&str]) -> Vec<String> {
    list.iter().map(|text| text.to_string()).collect()
}

#[test]
fn only_stdout_broken_pipes_get_the_stdout_marker() {
    let failure = |is_broken_pipe| WriteFailure {
        is_broken_pipe,
        message: "Broken pipe (os error 32)".to_string(),
    };
    let stdout = finish_stdout_write(Err(failure(true))).unwrap_err();
    assert!(is_stdout_broken_pipe(&stdout));
    let protocol = Error::new("Broken pipe (os error 32)".to_string());
    assert!(!is_stdout_broken_pipe(&protocol));
    assert!(!is_stdout_broken_pipe(&finish_stdout_write(Err(failure(false))).unwrap_err()));
    assert!(is_stdout_broken_pipe(&stdout.context("printing".to_string())));
    assert!(finish_stdout_write(Ok(())).is_ok());
}

#[test]
fn a_recipe_cannot_drive_the_terminal_it_is_approved_on() {
    let cfg = Config {
        mounts: vec![Mount {
            host: "/srv/data".to_string(),
            guest: "/work\x1b[2J\x1b[H  mount:    /innocent".to_string(),
            readonly: false,
        }],
        network: Network {
            allow: texts(&["10.0.0.0/8\x1b[2J  egress:   none"]),
            ports: texts(&["8080\x1b]0;pwned\x07"]),
            ..Network::default()
        },
        workload: Workload {
            entrypoint: "/bin/sh".to_string(),
            args: texts(&["-c\rterra: safe"]),
            workdir: None,
        },
        hooks: Hooks { on_start: texts(&["curl evil\x1b[A"]), ..Hooks::default() },
        env_file: Some("/data/.env\x1b[2J  mount:    /innocent".to_string()),
        ..empty()
    };
    let summary = render_policy_summary(&cfg);
    for raw in ['\x1b', '\r', '\x07'] {
        assert!(!summary.contains(raw), "the summary still carries {raw:?}:\n{summary}");
    }
    assert!(summary.contains("/srv/data"), "{summary}");
    assert!(summary.contains("8080"), "{summary}");
    assert!(summary.contains("10.0.0.0/8"), "{summary}");
    assert!(summary.contains("/bin/sh"), "{summary}");
}

#[test]
fn no_entry_adds_a_line_to_the_page() {
    let page = |entry: &str| {
        let cfg = Config {
            mounts: vec![Mount {
                host: entry.to_string(),
                guest: entry.to_string(),
                readonly: true,
            }],
            network: Network {
                allow: texts(&[entry, entry]),
                ports: texts(&[entry]),
                ..Network::default()
            },
            hooks: Hooks { on_start: texts(&[entry]), ..Hooks::default() },
            sudo: texts(&[entry, entry]),
            daemons: texts(&[entry]),
            env_file: Some(entry.to_string()),
            ..empty()
        };
        render_policy_summary(&cfg).matches('\n').count()
    };
    assert_eq!(page("plain"), 11);
    assert_eq!(page("two\nlines\r\nor three\n"), 11);
    assert_eq!(render_policy_summary(&empty()).matches('\n').count(), 4);
}

#[test]
fn quotes_and_backslashes_reach_the_page_as_they_were_written() {
    for as_typed in [r"sh -c 'npm test'", r#"echo "hi""#, r"/home/o'brien/src", r"C:\srv\data"] {
        assert_eq!(escape_printable(as_typed), as_typed);
    }
    for driving in ["'\x1b[2J", "\"\r", "\\\x07", "a'b\x1b]0;t\x07"] {
        let shown = escape_printable(driving);
        assert!(
            !shown.contains(['\x1b', '\r', '\x07']),
            "{shown:?} still drives the terminal"
        );
    }
    assert_eq!(escape_printable("a\nb\x1b"), "a\\nb\\u{1b}");
}

#[test]
fn the_printed_recipe_names_env_vars_without_their_values() {
    let mut cfg = empty();
    cfg.env.insert("API_KEY".to_string(), "sk-super-secret".to_string());
    cfg.env.insert("MODEL".to_string(), "gpt-4o".to_string());
    let redacted = redact_config_env(&cfg);
    for name in ["API_KEY", "MODEL"] {
        assert_eq!(redacted.env.get(name).map(String::as_str), Some(REDACTED_ENV_VALUE));
    }
    assert_eq!(redacted.env.len(), 2);
    assert_eq!(redacted.workload.entrypoint, cfg.workload.entrypoint);
    assert_eq!(cfg.env.get("MODEL").map(String::as_str), Some("gpt-4o"));
}

#[test]
fn the_approval_summary_names_the_host_file_a_recipe_reads() {
    let cfg = Config { env_file: Some("/home/me/.aws/credentials".to_string()), ..empty() };
    let summary = render_policy_summary(&cfg);
    assert!(summary.contains("/home/me/.aws/credentials"), "{summary}");
    let none = render_policy_summary(&empty());
    assert!(!none.contains("env_file"), "{none}");
}

#[test]
fn the_approval_summary_lists_every_daemon() {
    let cfg = Config { daemons: texts(&["ascend --serve", "evil\x1b[2J"]), ..empty() };
    let summary = render_policy_summary(&cfg);
    assert!(summary.contains("daemon:   ascend --serve"), "{summary}");
    assert!(!summary.contains('\x1b'), "{summary}");
    let none = render_policy_summary(&empty());
    assert!(!none.contains("daemon:"), "{none}");
}

#[test]
fn the_approval_summary_lists_every_allow_rule() {
    let cfg = Config {
        network: Network {
            mode: NetworkMode::Allowlist,
            allow: texts(&["HOST_LOOPBACK:22", "10.0.0.0/8"]),
            ..Network::default()
        },
        ..empty()
    };
    let summary = render_policy_summary(&cfg);
    for rule in ["HOST_LOOPBACK:22", "10.0.0.0/8"] {
        assert!(summary.contains(rule), "{rule} is not in:\n{summary}");
    }
}

#[test]
fn the_approval_summary_lists_hardware_and_component_requirements() {
    let cfg = Config {
        components: Components {
            memory_mib: 32,
            total_memory_mib: 128,
            network: Some(NetworkComponent { memory_mib: 64 }),
        },
        hw: Hw { cpus: 4, mem_mib: 4096, rootfs_mib: 2048 },
        ..empty()
    };
    let summary = render_policy_summary(&cfg);
    assert!(summary.contains("components: 32 MiB each"));
    assert!(summary.contains("network component: 64 MiB"));
    assert!(summary.contains("hardware: 4 vCPU, 4096 MiB RAM, 2048 MiB rootfs"), "{summary}");
}

/// What a shell makes of one word: quotes taken off, `\'` between them read as
/// a quote.
fn shell_reads(word: &str) -> String {
    let mut out = String::new();
    let mut quoted = false;
    let mut chars = word.chars();
    while let Some(c) = chars.next() {
        match c {
            '\'' => quoted = !quoted,
            '\\' if !quoted => out.extend(chars.next()),
            c => out.push(c),
        }
    }
    out
}

#[test]
fn a_word_of_a_printed_command_survives_the_shell_it_is_pasted_into() {
    for path in [
        "/p",
        "/home/me/My Projects/app",
        "/home/o'brien/src",
        "/a b$c`d",
        "/wild*card",
        "/quoted\"path",
        "",
    ] {
        assert_eq!(shell_reads(&quote_shell_word(path)), path);
    }
    assert_eq!(quote_shell_word("/home/me/src"), "/home/me/src");
    assert_eq!(quote_shell_word(""), "''");
}

#[test]
fn a_workload_is_one_line() {
    let cfg = Config {
        workload: Workload {
            entrypoint: "/bin/sh".to_string(),
            args: texts(&["-c", "npm test"]),
            workdir: None,
        },
        ..empty()
    };
    assert_eq!(format_workload_line(&cfg), "/bin/sh -c npm test");
}

#[test]
fn box_names_are_validated() {
    for ok in ["dev", "ci-arm.v2", "A_b", "x", "path", "name", "sandbox"] {
        assert!(validate_box_name(ok).is_ok(), "{ok}");
    }
    for bad in [
        "",
        ".hidden",
        "-flag",
        "_reserved",
        "__vm",
        "a/b",
        "a b",
        "é",
        "dev.",
        "CON",
        "lpt9.log",
        &"x".repeat(33),
    ] {
        assert!(validate_box_name(bad).is_err(), "{bad}");
    }
    for word in ["ls", "stop", "logs", "ps", "help"] {
        assert!(validate_box_name(word).is_err(), "{word}");
    }
    for file in ["ci.yaml", "ci.yml", "a.b.yaml"] {
        let err = validate_box_name(file).unwrap_err().message();
        assert!(err.contains("recipe file"), "{file}: {err}");
    }
    assert!(validate_box_name(ORIGIN_FILE).is_err());
    assert!(validate_box_name(&"x".repeat(32)).is_ok());
}

#[test]
fn invalid_box_names_escape_terminal_controls() {
    let error = validate_box_name("bad\x1b\x07").unwrap_err().message();
    assert!(!error.contains(['\x1b', '\x07']), "{error:?}");
}

#[test]
fn describe_names_the_posture() {
    let mut open = Network { mode: NetworkMode::UnrestrictedPublic, ..Network::default() };
    assert_eq!(describe(&open), "unrestricted-public (public egress only)");
    open.allow = texts(&["10.0.0.5:5432"]);
    assert_eq!(describe(&open), "unrestricted-public (public egress + listed rules)");

    let mut closed = Network { mode: NetworkMode::Allowlist, ..Network::default() };
    assert!(describe(&closed).contains("not even DNS"));
    closed.hosts = vec![StaticDnsRecord {
        name: "db.local".to_string(),
        addr: "HOST_LOOPBACK".to_string(),
    }];
    let with_records = describe(&closed);
    assert!(!with_records.contains("not even DNS"), "the records are answered: {with_records}");
    assert!(with_records.contains("nothing is reachable"), "{with_records}");
    closed.allow = texts(&["db.local:5432"]);
    assert_eq!(describe(&closed), "allowlist active (deny by default)");
}

fn map_ports(specs: &[&str]) -> Result<Vec<(u16, u16)>, String> {
    let specs = texts(specs);
    parse_port_mappings(&specs)
        .map(|list| list.iter().map(|mapping| (mapping.host, mapping.guest)).collect())
        .map_err(|error| error.full_message())
}

#[test]
fn parse_port_mappings_and_reject_invalid_entries() {
    assert_eq!(map_ports(&["8080", "3000:80"]), Ok(vec![(8080, 8080), (3000, 80)]));
    assert!(map_ports(&["0:80"]).is_err());
    assert!(map_ports(&["nope"]).is_err());
    let err = map_ports(&["8080", "8080:90"]).unwrap_err();
    assert!(err.contains("already carries"), "{err}");
    assert!(map_ports(&["8080:80", "8081:80"]).is_ok());

    assert_eq!(parse_port("65535"), Some(65535));
    for word in ["", "0", "65536", "-1", " 80", "80 ", "0x50", "80:90"] {
        assert_eq!(parse_port(word), None, "{word:?}");
    }
    assert_eq!(
        map_ports(&["80:"]),
        Err("invalid published port '80:': guest port must be 1-65535".to_string())
    );
    assert_eq!(
        map_ports(&[":80"]),
        Err("invalid published port ':80': host port must be 1-65535".to_string())
    );
    assert_eq!(
        map_ports(&["8080", "8080:90"]),
        Err("published port '8080:90': host port 8080 already carries guest port 8080".to_string())
    );
}

#[test]
fn a_recipe_that_is_only_shown_is_warned_of_rather_than_refused() {
    let refused = || Error::new("root".to_string()).context("mount".to_string());
    assert_eq!(settle_mounts(true, refused()).unwrap_err().full_message(), "mount: root");
    let warning = settle_mounts(false, refused()).unwrap();
    assert!(warning.ends_with("would refuse this recipe:\nmount: root"), "{warning}");
    assert!(settle_env(true, refused()).is_err());
    let warning = settle_env(false, refused()).unwrap();
    assert!(warning.starts_with("terra: warning: mount: root\n"), "{warning}");
    let note = divergence_note("dev", "/p/dev.yaml");
    assert!(note.contains("terra.yaml names /p/dev.yaml instead"), "{note}");
}

#[test]
fn ordinary_text_and_what_was_escaped_already_is_untouched() {
    for text in ["na\u{ef}ve \u{2764}", "\u{65e5}\u{672c}", "a\u{301}", "it's \"so\" C:\\x", ""] {
        assert_eq!(escape_printable(text), text);
    }
    for (text, shown) in [
        ("\x1b[31m", "\\u{1b}[31m"),
        ("\u{202e}txt", "\\u{202e}txt"),
        ("\u{301}x", "\\u{301}x"),
        ("\"\u{301}", "\"\\u{301}"),
        ("\n\u{301}", "\\n\u{301}"),
    ] {
        assert_eq!(escape_printable(text), shown);
        assert_eq!(escape_printable(shown), shown, "{text:?}");
    }
}
