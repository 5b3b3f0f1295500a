//! Where the state of a box lies, and what it says of the box.

use std::path::Path;
use terra::host::{Home, HostOs};
use terra::name::validate_box_name;
use terra::ordered::{TextMap, dedup_texts, sort_texts};
use terra::path::{components_of, is_equivalent, join, normalize, path_sorts_before, starts_with};
use terra::state::settings::{Settings, SettingsRead, SettledSettings};
use terra::state::{
    BoxRef, BoxState, FoundEntry, Holder, ORIGIN_FILE, PID_FILE, RECIPE_FILE, ROOTFS_FILE,
    VmProcess, box_home_path, boxes_in, cache_path, existing_names, format_pid_line,
    project_state_dir, read_origin, slug, spell_slug, terra_home_path,
};

const SUN_PATH: usize = 107;

fn home() -> Home {
    Home { dir: Ok("/home/me".to_string()), os: HostOs::Linux }
}

fn homeless() -> Home {
    Home { dir: Err("no home directory".to_string()), os: HostOs::Linux }
}

fn bx(project_dir: &str) -> BoxRef {
    BoxRef::resolve(project_dir, project_dir, "/home/me/.terra/box", "dev")
}

#[test]
fn terra_home_is_absolute_never_the_cwd() {
    let terra = terra_home_path(&home()).unwrap();
    assert!(Path::new(&terra).is_absolute());
    assert!(Path::new(&terra).ends_with(".terra"));
    assert!(terra_home_path(&homeless()).is_err());
}

#[test]
fn the_slug_is_base32_of_the_first_digest_bytes() {
    let s = slug("/tmp");
    assert_eq!(s, "t-x5khnk94914wawb7");
    let body = s.strip_prefix("t-").expect("every slug is prefixed");
    assert_eq!(body.len(), 16, "no padding, exact fit");
    let alphabet = "0123456789abcdefghjkmnpqrstvwxyz";
    assert!(body.chars().all(|c| alphabet.contains(c)), "{s}");

    assert_eq!(spell_slug(&vec![0; 10]), "t-0000000000000000");
    assert_eq!(spell_slug(&vec![0xff; 32]), "t-zzzzzzzzzzzzzzzz");
    let counting: Vec<u8> = (0..32).collect();
    assert_eq!(spell_slug(&counting), spell_slug(&counting[..10].to_vec()));
    assert_eq!(spell_slug(&vec![0x08, 0x42, 0x10, 0x84, 0x21, 0, 0, 0, 0, 1]), "t-1111111100000001");
}

#[test]
fn box_state_lives_in_the_home_layout() {
    let b = bx("/work/fresh");
    assert!(Path::new(b.dir()).starts_with("/home/me/.terra/box"));
    assert_eq!(Path::new(b.dir()).file_name().unwrap(), "dev");
    let project = Path::new(b.dir()).parent().unwrap();
    let slug = project.file_name().unwrap().to_str().unwrap();
    assert!(slug.starts_with("t-"), "{}", b.dir());
    assert_eq!(slug.len(), 18, "the slug is `t-` and 16 base32 characters: {slug}");
    assert_ne!(Path::new(bx("/work/second").dir()).parent().unwrap(), project);
    assert_eq!(Path::new(bx("/work/fresh").dir()), project.join("dev"));
    assert_eq!(
        project_state_dir("/home/me/.terra/box", "/work/fresh"),
        project.to_str().unwrap()
    );
}

#[test]
fn every_box_state_is_a_single_word() {
    for state in [
        BoxState::Running,
        BoxState::SettingUp,
        BoxState::Stopped,
        BoxState::NotCreated,
        BoxState::Gone,
    ] {
        let word = state.word();
        assert!(!word.is_empty());
        assert!(!word.chars().any(char::is_whitespace), "{word:?} is not a single word");
    }
}

#[test]
fn config_yaml_moves_the_boxes_and_the_cache_off_the_home_directory() {
    assert_eq!(box_home_path(&home(), &None).unwrap(), "/home/me/.terra/box");
    assert_eq!(cache_path(&home(), &None).unwrap(), "/home/me/.terra/cache");
    let boxes = Some("/elsewhere/boxes".to_string());
    let cache = Some("/elsewhere/cache".to_string());
    let box_home = box_home_path(&home(), &boxes).unwrap();
    assert_eq!(box_home, "/elsewhere/boxes");
    assert_eq!(cache_path(&home(), &cache).unwrap(), "/elsewhere/cache");
    assert!(
        BoxRef::resolve("/p", "/p", &box_home, "dev").dir().starts_with("/elsewhere/boxes/"),
        "the box did not follow storage.boxes"
    );
}

#[test]
fn a_config_yaml_terra_cannot_act_on_is_refused_rather_than_ignored() {
    for boxes in ["../boxes", "boxes", "~alice/boxes"] {
        let error = box_home_path(&home(), &Some(boxes.to_string())).unwrap_err().full_message();
        assert!(error.contains("absolute path"), "{boxes:?}: {error}");
    }
    let error = cache_path(&home(), &Some("cache".to_string())).unwrap_err().message();
    assert!(error.contains("must be an absolute path"), "{error}");
    assert!(error.contains("'cache'"), "{error}");

    let malformed = [
        "storage: unknown field `boxs`",
        "storage.boxes: invalid type: sequence",
        "unknown field `boxes`",
    ];
    for why in malformed {
        let read = SettingsRead::Malformed(why.to_string());
        let error = SettledSettings::new().box_home_path(&home(), read).unwrap_err().full_message();
        assert_eq!(error, format!("failed to parse /home/me/.terra/config.yaml: {why}"));
    }

    let cache = Some("~/somewhere-else".to_string());
    assert_eq!(box_home_path(&home(), &None).unwrap(), "/home/me/.terra/box");
    assert_eq!(cache_path(&home(), &cache).unwrap(), "/home/me/somewhere-else");

    let mut settings = SettledSettings::new();
    let empty = SettingsRead::Read(Settings { boxes: None, cache: None });
    assert_eq!(settings.cache_path(&home(), empty).unwrap(), "/home/me/.terra/cache");
}

fn storage(boxes: &str) -> SettingsRead {
    SettingsRead::Read(Settings { boxes: Some(boxes.to_string()), cache: None })
}

#[test]
fn the_settings_file_is_read_once_rather_than_once_per_path() {
    let mut settings = SettledSettings::new();
    assert!(!settings.is_settled());
    let settled = settings.box_home_path(&home(), storage("/elsewhere/boxes")).unwrap();
    assert_eq!(settled, "/elsewhere/boxes");
    assert!(settings.is_settled());
    assert_eq!(
        settings.box_home_path(&home(), SettingsRead::Missing).unwrap(),
        settled,
        "the file was read a second time"
    );
    assert_eq!(
        settings.cache_path(&home(), SettingsRead::Malformed("x".to_string())).unwrap(),
        "/home/me/.terra/cache"
    );
}

#[test]
fn settings_that_cannot_be_used_are_not_kept() {
    let mut settings = SettledSettings::new();
    let denied = SettingsRead::Unreadable("denied".to_string());
    assert_eq!(
        settings.box_home_path(&home(), denied).unwrap_err().full_message(),
        "reading /home/me/.terra/config.yaml: denied"
    );
    assert!(!settings.is_settled());
    assert_eq!(
        settings.box_home_path(&home(), storage("~/boxes")).unwrap(),
        "/home/me/boxes",
        "the file was mended"
    );
    assert_eq!(
        SettledSettings::new()
            .box_home_path(&homeless(), SettingsRead::Missing)
            .unwrap_err()
            .full_message(),
        "no home directory"
    );
}

#[test]
fn only_a_name_this_box_would_have_given_an_image_addresses_one() {
    let b = bx("/p");
    assert_eq!(b.image_named(ROOTFS_FILE), Some(b.rootfs_img()));
    assert_eq!(b.image_named("vol-data.img"), Some(b.volume_img("data")));
    for outside in [
        "../../.ssh/authorized_keys",
        "/etc/passwd",
        "vol-../../evil.img",
        "vol-..img",
        "vol-.img",
        "vol-/evil.img",
        RECIPE_FILE,
        PID_FILE,
        "",
    ] {
        assert_eq!(b.image_named(outside), None, "{outside} addressed a file");
    }
    for name in [ROOTFS_FILE, "vol-data.img", "vol-x.y.img"] {
        let path = b.image_named(name).unwrap();
        assert_eq!(Path::new(&path).parent(), Some(Path::new(b.dir())), "{name}");
    }
}

#[test]
fn existing_names_lists_what_is_on_disk() {
    assert!(existing_names(&Vec::new()).is_empty());
    let found = |name: Option<&str>, is_dir| FoundEntry { name: name.map(str::to_string), is_dir };
    let entries = vec![
        found(Some("dev"), true),
        found(Some("ci"), true),
        found(Some(ORIGIN_FILE), false),
        found(None, true),
    ];
    assert_eq!(existing_names(&entries), ["ci", "dev"]);
    assert_eq!(boxes_in(&entries).len(), 2);
    assert!(validate_box_name(ORIGIN_FILE).is_err());
}

#[test]
fn a_symlinked_project_directory_is_the_same_box() {
    let real = BoxRef::resolve("/real", "/real", "/h", "dev");
    let link = BoxRef::resolve("/link", "/real", "/h", "dev");
    assert_eq!(real.dir(), link.dir());
    assert_eq!(link.project_dir(), "/link");
}

#[test]
fn all_box_state_lives_under_the_state_dir() {
    let b = bx("/p");
    for p in [
        b.rootfs_img(),
        b.volume_img("data"),
        b.control_sock(),
        b.recipe(),
        b.agent_sock(),
        b.pid_file(),
        b.log(),
        b.diagnostics_log(),
    ] {
        assert!(Path::new(&p).starts_with(b.dir()), "{p} escapes the state dir");
    }
    assert_eq!(b.rootfs_img(), format!("{}/rootfs.img", b.dir()));
    assert_eq!(b.volume_img("data"), format!("{}/vol-data.img", b.dir()));
}

#[test]
fn socket_paths_are_bounded_and_same_length() {
    let shallow = bx("/tmp/box");
    assert!(shallow.ensure_sockets_fit(SUN_PATH).is_ok());
    let deep = bx(
        "/tmp/box/src/company/team/service/packages/frontend/apps/admin-console/experiments/checkout-rewrite",
    );
    assert!(deep.ensure_sockets_fit(SUN_PATH).is_ok());
    assert!(deep.control_sock().len() < 108);
    let long_name = bx("/tmp/a-project-directory-with-a-very-long-name");
    assert_eq!(long_name.control_sock().len(), shallow.control_sock().len());
    assert_eq!(deep.control_sock().len(), deep.agent_sock().len());
    let error = shallow.ensure_sockets_fit(10).unwrap_err().message();
    assert!(error.contains("cannot exceed 10"), "{error}");
}

#[test]
fn unused_volume_images_lists_only_what_the_recipe_dropped() {
    let b = bx("/p");
    let files: Vec<String> =
        ["vol-data.img", "vol-cache.img", "vol-old.img", "rootfs.img", "recipe.yaml", "terra.log"]
            .iter()
            .map(|name| name.to_string())
            .collect();
    assert!(b.unused_volume_images(&Vec::new(), &Vec::new()).is_empty());
    let unused = sort_texts(&b.unused_volume_images(&files, &vec!["data".to_string()]));
    assert_eq!(unused, [b.volume_img("cache"), b.volume_img("old")]);
    let all = sort_texts(&b.unused_volume_images(&files, &Vec::new()));
    assert_eq!(all, [b.volume_img("cache"), b.volume_img("data"), b.volume_img("old")]);
    assert_eq!(b.volume_images(&files).len(), 3);
}

#[test]
fn contention_names_the_command_holding_the_box() {
    let b = bx("/p");
    let error = b.contended(&format_pid_line(4242, None, false)).message();
    assert!(error.contains("locked by another terra command (pid 4242)"), "{error}");
    assert!(!error.contains("terra stop"), "no stop advice: {error}");
    let error = b.contended("").message();
    assert!(error.contains("is locked by another terra command"), "{error}");
    assert!(!error.contains("pid"), "{error}");
    let baking = format_pid_line(7, Some(9), true);
    assert!(b.contended(&baking).message().contains("being set up"));
}

#[test]
fn a_published_pid_is_read_back() {
    let b = bx("/p");
    for (started_at, baking) in [(None, false), (Some(9), false), (Some(9), true)] {
        let line = format_pid_line(42, started_at, baking);
        assert_eq!(b.vm_process(&line), Some(VmProcess { pid: 42, started_at }));
        let holder = if baking { Holder::SettingUp } else { Holder::Running };
        assert_eq!(b.holder(true, &line), holder);
        assert_eq!(b.holder(false, &line), Holder::Free);
    }
    assert_eq!(b.vm_process(""), None);
    assert!(Holder::Running.holds() && Holder::SettingUp.holds() && !Holder::Free.holds());
}

#[test]
fn the_refusal_for_a_box_being_set_up_names_the_bake_and_the_way_to_watch_it() {
    let b = bx("/p");
    let refusal = b.setup_holds_it().message();
    assert!(refusal.contains("being set up"), "{refusal}");
    assert!(refusal.contains(b.name()), "which box: {refusal}");
    assert!(refusal.contains(&b.logs_command()), "the way to watch it: {refusal}");
}

#[test]
fn the_hint_that_points_at_a_box_s_log_is_a_command_that_parses() {
    let b = BoxRef::from_state_dir("/p/dev".to_string(), "/p");
    assert_eq!(b.logs_command(), "terra dev logs --project /p");
}

#[test]
fn a_box_being_set_up_is_its_own_state_not_running() {
    let b = bx("/p");
    assert_eq!(b.state(Holder::Free, true, false), BoxState::NotCreated);
    assert_eq!(b.state(Holder::Free, true, true), BoxState::Stopped);
    assert_eq!(b.state(Holder::Running, true, true), BoxState::Running);
    assert_eq!(b.state(Holder::SettingUp, true, true), BoxState::SettingUp);
    assert_eq!(b.state(Holder::SettingUp, true, true).word(), "setting-up");
    assert_eq!(b.state(Holder::Free, false, true), BoxState::Gone);
}

#[test]
fn an_origin_is_the_path_it_was_written_as() {
    assert_eq!(read_origin("/work/p\n").as_deref(), Some("/work/p"));
    assert_eq!(read_origin("\n"), None);
}

#[test]
fn paths_are_read_as_the_standard_library_reads_them() {
    for path in ["", "/", "a", "./a", "a/./b", "a//b/", "/a/../b", "..", ".", "//a", "a/."] {
        let ours = components_of(path).len();
        assert_eq!(ours, Path::new(path).components().count(), "{path}");
    }
    for (path, base) in [("/a/b", "/a"), ("/ab", "/a"), ("/a", "/a/b"), ("a//b", "a/b/"), ("", "")] {
        assert_eq!(starts_with(path, base), Path::new(path).starts_with(base), "{path} {base}");
        assert_eq!(is_equivalent(path, base), Path::new(path) == Path::new(base));
        assert_eq!(
            path_sorts_before(path, base),
            Path::new(path) < Path::new(base),
            "{path} {base}"
        );
    }
    for (a, b) in [("/a/b", "/a-b"), ("/a-b", "/a/b"), ("a", "/a"), ("../a", "a"), ("./a", "../a")] {
        assert_eq!(path_sorts_before(a, b), Path::new(a) < Path::new(b), "{a} {b}");
    }
    for (base, path) in [("/a", "b"), ("/a/", "b"), ("", "b"), ("/a", "/b"), ("a", "")] {
        assert_eq!(Path::new(&join(base, path)), Path::new(base).join(path), "{base} {path}");
    }
    assert_eq!(normalize("/a/./b//c"), "/a/b/c");
}

#[test]
fn texts_are_kept_in_order_and_once() {
    let list: Vec<String> = ["b", "a", "é", "b", "Z"].iter().map(|t| t.to_string()).collect();
    let sorted = sort_texts(&list);
    assert_eq!(sorted, ["Z", "a", "b", "b", "é"]);
    assert_eq!(dedup_texts(&sorted), ["Z", "a", "b", "é"]);
    let mut map: TextMap<String> = TextMap::new();
    assert_eq!(map.insert("b".to_string(), "1".to_string()), None);
    assert_eq!(map.insert("a".to_string(), "2".to_string()), None);
    assert_eq!(map.insert("b".to_string(), "3".to_string()), Some("1".to_string()));
    assert_eq!(map.len(), 2);
    assert_eq!((map.key_at(0), map.key_at(1)), ("a", "b"));
    assert_eq!(map.value_at(1), "3");
    assert_eq!(map.get("c"), None);
}

#[test]
fn projects_with_different_digests_have_different_slugs() {
    let slugs: Vec<String> = (0..50).map(|n| slug(&format!("/project/{n}"))).collect();
    for (i, one) in slugs.iter().enumerate() {
        assert!(!slugs[..i].contains(one), "{one}");
    }
}
