//! Recipes, their env files and what they may share.

use std::path::Path;
use terra::config::{Components, Config, Manifest, Mount, Volume};
use terra::env::{merge_env_file, validate_env};
use terra::env_file::open::{EnvOpening, OpenEvent, OpenStep};
use terra::env_file::{EnvRead, read_env_file};
use terra::error::Error;
use terra::host::{Home, HostOs};
use terra::mount::{
    DeclaredMount, FoundProject, PinnedPaths, TerraPaths, find_writable_mount_containing,
    list_declared_writable_shares, list_pinned_recipes_across_boxes, resolve_mounts,
    validate_mounts_against_terra_paths, verify_pinned_paths,
};
use terra::ordered::TextMap;
use terra::recipe::{
    ReadManifest, ReadRecipe, RecipeFacts, expand_tilde, load_manifest, load_manifest_or_warn,
    load_path, normalize_guest_path, parse_recipe, read_recipe_text,
};
use terra::resolve::FileRead;
use terra::timezone::{HostTimezone, collect_from_path};

fn home() -> Home {
    Home { dir: Ok("/home/me".to_string()), os: HostOs::Linux }
}

fn empty() -> Config {
    Config::with_components(Components { memory_mib: 16, total_memory_mib: 64, network: None })
}

fn facts() -> RecipeFacts {
    RecipeFacts { max_volumes: 20, max_vcpus: Some(8), policy_refusal: None }
}

fn parse_with(cfg: Config, facts: &RecipeFacts) -> Result<Config, Error> {
    parse_recipe(Ok(cfg), "/proj", "/proj/r.yaml", &home(), facts)
}

fn parse(cfg: Config) -> Result<Config, Error> {
    parse_with(cfg, &facts())
}

fn message(result: Result<Config, Error>) -> String {
    result.expect_err("this should be refused").full_message()
}

fn mount(host: &str, guest: &str) -> Mount {
    Mount { host: host.to_string(), guest: guest.to_string(), readonly: false }
}

fn volume(name: &str, guest: &str, size_mib: u32) -> Volume {
    Volume { name: name.to_string(), guest: guest.to_string(), size_mib }
}

fn env(pairs: &[(&str, &str)]) -> TextMap<String> {
    let mut map = TextMap::new();
    for (key, value) in pairs {
        map.insert(key.to_string(), value.to_string());
    }
    map
}

#[test]
fn a_relative_mount_resolves_against_the_project_directory() {
    let recipe = Config { mounts: vec![mount("src", "/work")], ..empty() };
    let read = ReadRecipe::Read(Ok(recipe));
    let cfg = load_path("/elsewhere/./cfg.yaml", "/proj", read, &home(), &facts()).unwrap();
    assert_eq!(Path::new(&cfg.mounts[0].host), Path::new("/proj/src"));
}

#[test]
fn env_file_merges_over_env() {
    let recipe = env(&[("A", "from-recipe"), ("C", "only-recipe")]);
    let (warnings, merged) =
        merge_env_file(&recipe, "# comment\n\nA=from-file\nB=only-file\n", "/p/secrets.env");
    let merged = merged.unwrap();
    assert_eq!(merged.get("A").map(String::as_str), Some("from-file"));
    assert_eq!(merged.get("B").map(String::as_str), Some("only-file"));
    assert_eq!(merged.get("C").map(String::as_str), Some("only-recipe"));
    assert_eq!(warnings.len(), 1);
    assert!(warnings[0].contains("env variable 'A' is set in both"), "{}", warnings[0]);
}

#[test]
fn an_env_file_is_opened_from_the_root_down() {
    let opened = |path: &str, missing: &str| {
        let mut opening = EnvOpening::start(path);
        let mut asked = Vec::new();
        loop {
            let (word, event) = match opening.next() {
                OpenStep::OpenRoot => ("/".to_string(), OpenEvent::Done),
                OpenStep::OpenDirectory(name) if name == missing => {
                    (name, OpenEvent::Failed("no such directory".to_string()))
                }
                OpenStep::OpenDirectory(name) => (format!("{name}/"), OpenEvent::Done),
                OpenStep::OpenFile(name) => (name, OpenEvent::Done),
                OpenStep::Inspect => ("?".to_string(), OpenEvent::IsFile(missing != "file")),
                OpenStep::Nothing => break,
            };
            asked.push(word);
            opening = opening.advance(event);
        }
        let result = opening.into_result().unwrap().map_err(|error| error.message());
        (asked.join(" "), result)
    };
    assert_eq!(opened("/home/me/.env", ""), ("/ home/ me/ .env ?".to_string(), Ok(())));
    assert_eq!(
        opened("/home/me/.env", "me"),
        ("/ home/ me".to_string(), Err("no such directory".to_string()))
    );
    assert_eq!(
        opened("/home/.env", "file"),
        ("/ home/ .env ?".to_string(), Err("expected a regular file".to_string()))
    );
    assert_eq!(
        opened("home/.env", ""),
        (String::new(), Err("env file is not an absolute path".to_string()))
    );
    assert_eq!(
        opened("/home/../.env", ""),
        ("/ home/".to_string(), Err("env file is not an absolute path".to_string()))
    );
    assert_eq!(opened("/", ""), ("/".to_string(), Err("expected a regular file".to_string())));
}

#[test]
fn a_bad_env_file_is_refused() {
    let bad = |text: &str| {
        merge_env_file(&env(&[]), text, "/p/bad.env").1.unwrap_err().full_message()
    };
    assert!(bad("NO_EQUALS\n").contains("KEY=VAL"));
    let err = bad("A = 1\n");
    assert!(err.contains("environment variable"), "{err}");
    assert!(err.contains("KEY=VAL"), "the spelling that works: {err}");
}

#[test]
fn a_shell_export_prefix_in_an_env_file_is_refused() {
    let err = merge_env_file(&env(&[]), "export API_KEY=sk-1\n", "/p/shell.env")
        .1
        .unwrap_err()
        .full_message();
    assert!(err.contains("export"), "the fix is named: {err}");
    assert!(err.contains("KEY=VAL"), "{err}");
    let (warnings, merged) =
        merge_env_file(&env(&[]), "API_KEY=sk-1\nQ=\"quoted\"\n", "/p/plain.env");
    let merged = merged.unwrap();
    assert_eq!(merged.get("API_KEY").map(String::as_str), Some("sk-1"));
    assert_eq!(merged.get("Q").map(String::as_str), Some("\"quoted\""));
    assert!(warnings.is_empty());
}

#[test]
fn a_deleted_env_file_does_not_stop_the_recipe_parsing() {
    let mut cfg = parse(Config {
        mounts: vec![mount(".", "/work")],
        env_file: Some("./gone.env".to_string()),
        ..empty()
    })
    .expect("a missing env_file is not a parse failure");
    assert_eq!(Path::new(&cfg.mounts[0].host), Path::new("/proj"), "the shares are still there");
    assert_eq!(cfg.env_file.as_deref().map(Path::new), Some(Path::new("/proj/gone.env")));

    let gone = EnvRead::Unopened("No such file or directory (os error 2)".to_string());
    let err = read_env_file(&mut cfg, gone).1.unwrap_err().full_message();
    assert!(err.contains("opening env file"), "{err}");
}

#[test]
fn another_users_home_is_refused_not_silently_made_relative() {
    let err = expand_tilde("~alice/data", &home()).unwrap_err().message();
    assert!(err.contains("absolute path"), "the fix is named: {err}");
    assert_eq!(expand_tilde("~/x", &home()).unwrap(), "/home/me/x");
    assert_eq!(expand_tilde("src/x", &home()).unwrap(), "src/x");
    assert_eq!(expand_tilde("src/~odd", &home()).unwrap(), "src/~odd");
    let err = message(parse(Config { mounts: vec![mount("~alice/data", "/work")], ..empty() }));
    assert!(err.contains("absolute path"), "{err}");
}

#[test]
fn env_the_guest_cannot_export_is_refused() {
    for (key, value) in [
        ("", "oops"),
        ("FOO=BAR", "x"),
        ("FOO", "a\0b"),
        ("FO\0O", "x"),
        ("export FOO", "x"),
        ("FOO BAR", "x"),
        ("FOO\tBAR", "x"),
    ] {
        let err = message(parse(Config { env: env(&[(key, value)]), ..empty() }));
        assert!(err.contains("environment variable"), "{key:?} should be refused: {err}");
        assert!(validate_env(&env(&[(key, value)])).is_err());
    }
    let ok = parse(Config { env: env(&[("API_KEY", "sk-with=equals")]), ..empty() }).unwrap();
    assert_eq!(ok.env.get("API_KEY").map(String::as_str), Some("sk-with=equals"));
}

fn manifest(name: &str, reference: &str) -> ReadManifest {
    let mut boxes = TextMap::new();
    boxes.insert(name.to_string(), reference.to_string());
    ReadManifest::Read(Manifest { boxes })
}

#[test]
fn a_manifest_reference_must_be_a_recipe_path() {
    let err = load_manifest("/p/terra.yaml", manifest("dev", "pi-dev"), HostOs::Linux).unwrap_err().full_message();
    assert!(err.contains("not a recipe path"), "{err}");
    assert!(err.contains("./pi-dev.yaml"), "the fix is spelled out: {err}");
    assert!(load_manifest("/p/terra.yaml", manifest("dev", "./dev.yaml"), HostOs::Linux).unwrap().is_some());
    assert!(
        load_manifest("/p/terra.yaml", ReadManifest::Missing, HostOs::Linux).unwrap().is_none(),
        "a missing manifest is no manifest"
    );
    let unread = ReadManifest::Unreadable("denied".to_string());
    let err = load_manifest("/p/terra.yaml", unread, HostOs::Linux).unwrap_err().full_message();
    assert!(err.contains("reading"), "{err}");
}

#[test]
fn a_broken_manifest_does_not_take_the_box_away() {
    let broken = ReadManifest::Malformed("bad yaml\x1b".to_string());
    let (manifest, warning) = load_manifest_or_warn("/p/terra.yaml", broken, HostOs::Linux);
    assert!(manifest.is_none());
    assert!(!warning.unwrap().contains('\x1b'));
    let (none, warning) = load_manifest_or_warn("/p/terra.yaml", ReadManifest::Missing, HostOs::Linux);
    assert!(none.is_none() && warning.is_none());
}

#[test]
fn volume_names_are_validated() {
    let with = |volumes| parse(Config { volumes, ..empty() });
    assert!(with(vec![volume("data", "/data", 64)]).is_ok());
    assert!(with(vec![volume("d", "/a", 64), volume("d", "/b", 64)]).is_err());
    assert!(with(vec![volume("../x", "/a", 64)]).is_err());
    let many = |n: usize| {
        with((0..n).map(|i| volume(&format!("v{i}"), &format!("/v{i}"), 1)).collect())
    };
    assert!(many(20).is_ok());
    let err = message(many(21));
    assert!(err.contains("at most"), "{err}");
}

#[test]
fn sudo_entries_are_normalized_to_bare_commands() {
    let with = |entry: &str| parse(Config { sudo: vec![entry.to_string()], ..empty() });
    for entry in ["apk", "  apk  ", "\napk"] {
        assert_eq!(with(entry).unwrap().sudo, ["apk"], "{entry:?}");
    }
    for bad in ["apk add git", "   ", "a\u{7}pk", "apk\ndoas"] {
        let err = message(with(bad));
        assert!(
            err.contains("bare command") || err.contains("not empty strings"),
            "{bad:?} should be refused by the guard, not by chance: {err}"
        );
    }
}

#[test]
fn a_network_section_the_gateway_is_refused_by_fails_the_recipe() {
    let refused = RecipeFacts { policy_refusal: Some("prefix length".to_string()), ..facts() };
    let err = message(parse_with(empty(), &refused));
    assert!(err.contains("prefix length"), "{err}");
    let mut cfg = empty();
    cfg.network.ports = vec!["8080".to_string(), "8080:90".to_string()];
    let err = message(parse(cfg));
    assert!(err.contains("already carries"), "{err}");
}

#[test]
fn hardware_a_vm_cannot_be_built_from_is_refused() {
    let with = |cpus, mem_mib| {
        let mut cfg = empty();
        cfg.hw.cpus = cpus;
        cfg.hw.mem_mib = mem_mib;
        parse(cfg)
    };
    let err = message(with(0, 1024));
    assert!(err.contains("hw.cpus"), "{err}");
    let err = message(with(2, 16));
    assert!(err.contains("hw.mem_mib"), "{err}");
    assert!(err.contains("128"), "the floor is named: {err}");
    assert!(with(1, 128).is_ok());
    assert!(parse(empty()).is_ok());
    assert!(with(9, 1024).is_err());
}

#[test]
fn one_guest_path_carries_one_thing() {
    let clash = |mounts, volumes| message(parse(Config { mounts, volumes, ..empty() }));
    for err in [
        clash(vec![mount("./a", "/work"), mount("./b", "/work")], vec![]),
        clash(vec![], vec![volume("a", "/data", 8), volume("b", "/data", 8)]),
        clash(vec![mount("./a", "/data")], vec![volume("v", "/data", 8)]),
        clash(vec![mount("./a", "/work"), mount("./b", "/work/")], vec![]),
    ] {
        assert!(err.contains("claimed twice"), "{err}");
    }
    assert!(
        parse(Config {
            mounts: vec![mount("./a", "/work")],
            volumes: vec![volume("v", "/work/target", 8)],
            ..empty()
        })
        .is_ok()
    );
}

#[test]
fn relative_guest_mount_path_is_rejected() {
    let err = message(parse(Config { mounts: vec![mount(".", "work")], ..empty() }));
    assert!(err.contains("must be absolute"), "{err}");
    assert_eq!(normalize_guest_path("/work//a/./b/").unwrap(), "/work/a/b");
    for (path, normal) in [("/", "/"), ("//", "/"), ("/..", "/"), ("/a/..", "/"), ("/a/../../b/", "/b")] {
        assert_eq!(normalize_guest_path(path).unwrap(), normal);
        assert_eq!(normalize_guest_path(normal).unwrap(), normal);
    }
    for refused in ["", "a", "./a", "/a\\b", "\\a"] {
        assert!(normalize_guest_path(refused).is_err(), "{refused}");
    }
}

#[test]
fn a_relative_workdir_is_refused() {
    let with = |workdir: &str| {
        let mut cfg = empty();
        cfg.workload.workdir = Some(workdir.to_string());
        parse(cfg)
    };
    let err = message(with("work"));
    assert!(err.contains("workdir must be absolute"), "{err}");
    assert_eq!(with("/work").unwrap().workload.workdir.as_deref(), Some("/work"));
}

#[test]
fn missing_config_names_the_path() {
    let err = load_path(
        "/proj/no-such.yaml",
        "/proj",
        ReadRecipe::Unreadable("not found".to_string()),
        &home(),
        &facts(),
    )
    .unwrap_err()
    .full_message();
    assert!(err.contains("/proj/no-such.yaml"), "{err}");
    assert!(err.ends_with("not found"), "{err}");
}

#[test]
fn a_recipe_file_is_bounded_text() {
    assert_eq!(read_recipe_text(b"hw: {}\n".to_vec()).unwrap(), "hw: {}\n");
    assert_eq!(
        read_recipe_text(vec![b'a'; 8 * 1024 * 1024 + 1]).unwrap_err(),
        "recipe is larger than the 8388608-byte limit"
    );
    assert_eq!(
        read_recipe_text(vec![b'a', 0xff]).unwrap_err(),
        "invalid utf-8 sequence of 1 bytes from index 1"
    );
}

fn terra_paths() -> TerraPaths {
    TerraPaths {
        box_dir: "/home/me/.terra/box/t-1/dev".to_string(),
        terra_home: Some("/home/me/.terra".to_string()),
        box_home: Some("/home/me/.terra/box".to_string()),
        cache: Some("/home/me/.terra/cache".to_string()),
        binary: Some("/usr/local/bin/terra".to_string()),
    }
}

fn share(host: &str, readonly: bool) -> Result<(), String> {
    let mounts = vec![Mount { host: host.to_string(), guest: "/work".to_string(), readonly }];
    validate_mounts_against_terra_paths(&mounts, &vec![host.to_string()], &terra_paths())
        .map_err(|error| error.full_message())
}

#[test]
fn a_mount_containing_the_box_state_is_refused() {
    let err = share("/home/me/.terra/box/t-1/dev", false).unwrap_err();
    assert!(err.contains("this box's own state"), "{err}");
    assert!(err.contains("--project"), "it should say what to do: {err}");
    assert!(share("/home/me/.terra/box/t-1", false).is_err());
    assert!(share("/work/project", false).is_ok());
    assert!(validate_mounts_against_terra_paths(&Vec::new(), &Vec::new(), &terra_paths()).is_ok());
}

#[test]
fn a_mount_containing_terra_home_is_refused() {
    for host in ["/home/me/.terra/cache", "/home/me/.terra/recipes"] {
        let err = share(host, false).unwrap_err();
        assert!(err.contains("terra's own directory"), "{err}");
    }
}

#[test]
fn a_read_only_share_of_terra_state_is_still_refused() {
    assert!(share("/home/me/.terra/box/t-1/dev", true).is_err());
}

#[test]
fn protected_mount_errors_escape_control_characters() {
    let error = share("/home/me/.terra/box/t-1/dev/data\x1b\x07", false).unwrap_err();
    assert!(error.contains("would share"), "{error}");
    assert!(!error.contains(['\x1b', '\x07']), "{error:?}");
}

#[test]
fn a_mount_containing_the_terra_binary_is_refused() {
    let err = share("/usr/local/bin", false).unwrap_err();
    assert!(err.contains("the terra binary"), "{err}");
    assert!(share("/usr/local/bin", true).is_ok());
}

#[test]
fn changed_mount_and_env_file_targets_are_refused() {
    let pinned = |share: &str, env: &str| {
        let mut cfg = empty();
        cfg.mounts = vec![mount(share, "/work")];
        cfg.env_file = Some(env.to_string());
        PinnedPaths::from_config(&cfg)
    };
    let stored = Some(pinned("/safe", "/safe/env"));
    assert!(verify_pinned_paths("dev", &stored, &pinned("/safe", "/safe/env")).is_ok());
    assert!(verify_pinned_paths("dev", &stored, &pinned("/safe/.", "/safe//env")).is_ok());
    for changed in [pinned("/private", "/safe/env"), pinned("/safe", "/private/env")] {
        let error = verify_pinned_paths("dev", &stored, &changed).unwrap_err().message();
        assert!(error.contains("moved since it was pinned"), "{error}");
    }
    assert!(verify_pinned_paths("dev", &None, &pinned("/safe", "/safe/env")).is_err());
}

#[test]
fn a_recipe_file_inside_a_writable_share_is_reported() {
    let found = |file: &str, readonly| {
        let ran = vec![declared(Some("/d/project"), Some(readonly))];
        let shares = list_declared_writable_shares(&ran, "/d", &home()).unwrap();
        find_writable_mount_containing(file, &shares)
    };
    assert_eq!(
        found("/d/project/app.yaml", false).as_deref(),
        Some("/d/project"),
        "a source inside a writable share must be reported"
    );
    assert_eq!(
        found("/d/elsewhere.yaml", false),
        None,
        "a source outside every share is nobody's to have written"
    );
    assert_eq!(found("/d/project/app.yaml", true), None);
}

fn declared(host: Option<&str>, readonly: Option<bool>) -> DeclaredMount {
    DeclaredMount {
        is_mapping: true,
        has_merge_key: false,
        readonly,
        host: host.map(str::to_string),
    }
}

#[test]
fn one_unreadable_mount_entry_does_not_drop_the_shares_beside_it() {
    let list = |mounts: Vec<DeclaredMount>| list_declared_writable_shares(&mounts, "/p", &home());
    let shares = list(vec![
        DeclaredMount { is_mapping: false, ..declared(None, None) },
        declared(None, Some(false)),
        declared(Some("./src"), Some(false)),
        declared(Some("/ro"), Some(true)),
    ])
    .unwrap();
    assert_eq!(shares.len(), 1);
    assert_eq!(Path::new(&shares[0]), Path::new("/p/src"));
    let merged = DeclaredMount { has_merge_key: true, ..declared(Some("/x"), Some(false)) };
    assert!(list(vec![merged]).is_err());
    assert_eq!(
        list(vec![declared(Some("/rw"), None)]).unwrap(),
        ["/rw"],
        "a mount that does not say is writable"
    );
}

#[test]
fn list_pinned_recipes_across_boxes_in_the_directory() {
    let list = |found: Vec<FoundProject>| {
        list_pinned_recipes_across_boxes("/boxes/t-1", "/project", &found)
    };
    assert!(list(Vec::new()).unwrap().is_empty());
    let boxes = || {
        vec![
            ("/boxes/t-1/a".to_string(), FileRead::Text("cpus: 1".to_string())),
            ("/boxes/t-1/b".to_string(), FileRead::Text("cpus: 2".to_string())),
            ("/boxes/t-1/c".to_string(), FileRead::Missing),
        ]
    };
    let project = |state_dir: &str, origin: Option<&str>| FoundProject {
        state_dir: state_dir.to_string(),
        origin: origin.map(str::to_string),
        boxes: boxes(),
    };
    // The state of this project needs no label, and the label does not count.
    let recipes = list(vec![project("/boxes/t-1", Some("/elsewhere"))]).unwrap();
    assert_eq!(
        recipes,
        [
            ("/project".to_string(), "cpus: 1".to_string()),
            ("/project".to_string(), "cpus: 2".to_string()),
        ]
    );
    let recipes = list(vec![project("/boxes/t-2", Some("/other"))]).unwrap();
    assert_eq!(recipes[0].0, "/other");
    let err = list(vec![project("/boxes/t-2", None)]).unwrap_err().message();
    assert!(err.contains("missing project origin for /boxes/t-1/a"), "{err}");
    assert!(err.contains("/boxes/t-2/.path"), "{err}");
    let unread = FoundProject {
        state_dir: "/boxes/t-1".to_string(),
        origin: None,
        boxes: vec![("/boxes/t-1/a".to_string(), FileRead::Unreadable("denied".to_string()))],
    };
    assert_eq!(list(vec![unread]).unwrap_err().full_message(), "reading /boxes/t-1/a: denied");
}

fn zone(bytes: Option<&[u8]>, target: Option<&str>) -> Option<String> {
    collect_from_path(bytes.map(<[u8]>::to_vec), target).map(|zone| match zone {
        HostTimezone::Tzif(bytes) => format!("{} bytes", bytes.len()),
        HostTimezone::Iana(name) => name,
    })
}

#[test]
fn tzif_read_from_file() {
    let mut bytes = b"TZif".to_vec();
    bytes.extend_from_slice(&[0u8; 32]);
    match collect_from_path(Some(bytes.clone()), None) {
        Some(HostTimezone::Tzif(read)) => assert_eq!(read, bytes),
        other => panic!("{other:?}"),
    }
}

#[test]
fn iana_from_symlink_zoneinfo() {
    assert_eq!(
        zone(None, Some("/usr/share/zoneinfo/Europe/Prague-tz-test-nonexistent")).as_deref(),
        Some("Europe/Prague-tz-test-nonexistent")
    );
    assert_eq!(zone(None, Some("/usr/share/zoneinfo/")), None);
}

#[test]
fn iana_from_relative_symlink() {
    assert_eq!(zone(None, Some("Europe/Prague")).as_deref(), Some("Europe/Prague"));
    assert_eq!(zone(None, Some("//Europe/Prague")).as_deref(), Some("Europe/Prague"));
    assert_eq!(zone(None, Some("../Europe/Prague")), None);
    assert_eq!(zone(None, Some("UTC")), None);
}

#[test]
fn unmapped_returns_none() {
    assert_eq!(zone(Some(b"not tzif"), None), None);
    assert_eq!(zone(Some(b"TZi"), None), None);
}

#[test]
fn missing_file_is_none() {
    assert_eq!(zone(None, None), None);
}

#[test]
fn an_override_is_told_even_where_a_later_line_is_refused() {
    let recipe = env(&[("A", "from-recipe")]);
    let (warnings, merged) = merge_env_file(&recipe, "A=from-file\nNO_EQUALS\n", "/p/.env");
    assert_eq!(merged.unwrap_err().message(), "invalid env file line 2 (want KEY=VAL)");
    assert_eq!(
        warnings,
        ["terra: warning: env variable 'A' is set in both env: and env_file: /p/.env - the env_file wins"]
    );
    let large = "A=".to_string() + &"x".repeat(1 << 20);
    let (warnings, merged) = merge_env_file(&recipe, &large, "/p/.env");
    assert_eq!(
        merged.unwrap_err().message(),
        "env file /p/.env is larger than the 1048576-byte limit"
    );
    assert!(warnings.is_empty());
}

#[test]
fn mounts_are_judged_where_their_links_lead() {
    let mounts = vec![mount("./sub/../src", "/work"), mount("./data", "/data")];
    let followed = vec![Ok("/proj/src".to_string()), Ok("/srv/data".to_string())];
    let there = resolve_mounts(&mounts, &followed, &terra_paths()).unwrap();
    assert_eq!(there[0].host, "/proj/src");
    assert_eq!((there[1].host.as_str(), there[1].guest.as_str()), ("/srv/data", "/data"));

    let gone = vec![Ok("/proj/src".to_string()), Err("No such file".to_string())];
    let error = resolve_mounts(&mounts, &gone, &terra_paths()).unwrap_err().full_message();
    assert_eq!(error, "resolving mount host path './data': No such file");

    let state = vec![Ok("/proj/src".to_string()), Ok(terra_paths().box_dir)];
    let error = resolve_mounts(&mounts, &state, &terra_paths()).unwrap_err().message();
    assert!(error.contains("this box's own state"), "{error}");
}

#[test]
fn a_guest_path_has_one_spelling() {
    for spelling in ["/work/../srv/./data", "/srv//data/", "/../srv/data"] {
        let normal = normalize_guest_path(spelling).unwrap();
        assert_eq!(normal, "/srv/data");
        assert_eq!(normalize_guest_path(&normal).unwrap(), normal);
    }
}

#[test]
fn a_symlink_to_a_protected_path_is_refused() {
    let mounts = vec![mount("/tmp/innocent", "/work")];
    let followed = vec![Ok("/usr/local/bin/terra".to_string())];
    let err = resolve_mounts(&mounts, &followed, &terra_paths()).unwrap_err().message();
    assert!(err.contains("the terra binary"), "{err}");
}

#[test]
fn a_share_that_was_deleted_does_not_silence_the_authorship_check() {
    let ran = vec![
        declared(Some("/tmp/project"), Some(false)),
        declared(Some("/tmp/project/data"), Some(false)),
    ];
    let shares = list_declared_writable_shares(&ran, "/tmp", &home()).unwrap();
    assert_eq!(
        find_writable_mount_containing("/tmp/project/evil.yaml", &shares).as_deref(),
        Some("/tmp/project")
    );
}
