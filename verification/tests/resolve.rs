//! What a word of the command line means, and where a box's recipe comes from.

use std::path::Path;
use terra::config::Manifest;
use terra::host::{Home, HostOs};
use terra::ordered::TextMap;
use terra::recipe::resolve_recipe_path;
use terra::resolve::{
    BoxArg, BoxFacts, Existence, FileRead, Source, Surroundings, build_missing_box_error,
    build_missing_recipe_error, choose_default_box_name, choose_target, is_path,
    list_known_names_with, read_recipe, resolve, resolve_for_setup, resolve_pinned_box,
};
use terra::state::box_home_path;

fn home() -> Home {
    Home { dir: Ok("/home/me".to_string()), os: HostOs::Linux }
}

fn manifest(boxes: &[(&str, &str)]) -> Option<Manifest> {
    let mut map = TextMap::new();
    for (name, reference) in boxes {
        map.insert(name.to_string(), reference.to_string());
    }
    Some(Manifest { boxes: map })
}

fn around(manifest: Option<Manifest>, cwd: Option<&str>) -> Surroundings {
    Surroundings {
        project_dir: "/project".to_string(),
        real_dir: "/project".to_string(),
        box_home: "/boxes".to_string(),
        manifest,
        home: home(),
        cwd: cwd.map(str::to_string),
    }
}

fn facts(pinned: bool, recipe: FileRead, pinned_text: Option<&str>) -> BoxFacts {
    BoxFacts {
        pinned,
        recipe,
        pinned_text: pinned_text.map(str::to_string),
    }
}

fn text(recipe: &str) -> FileRead {
    FileRead::Text(recipe.to_string())
}

fn named() -> BoxArg {
    BoxArg::Name("dev".to_string())
}

#[test]
fn unreadable_recipe_reference_errors_escape_terminal_controls() {
    let name = "./bad\x1b]0;title\x07.yaml";
    let read = FileRead::Unreadable("is a directory".to_string());
    let error = read_recipe(name, "/project", &home(), &read).unwrap_err().full_message();
    assert!(!error.contains(['\x1b', '\x07']), "{error:?}");
    assert!(error.ends_with(": is a directory"), "{error:?}");
}

#[test]
fn missing_recipe_errors_escape_terminal_controls() {
    let error =
        build_missing_recipe_error("dev", "./bad\x1b]0;title\x07.yaml", "/project", &home())
            .message();
    assert!(!error.contains(['\x1b', '\x07']), "{error:?}");
}

#[test]
fn a_bare_word_names_no_recipe_file() {
    let word = BoxArg::parse("pi-dev", HostOs::Linux).unwrap();
    assert!(matches!(word, BoxArg::Name(n) if n == "pi-dev"));
    assert!(read_recipe("pi-dev", "/d", &home(), &text("hw:\n  cpus: 1\n")).unwrap().is_none());
    let err = build_missing_recipe_error("pi-dev", "pi-dev", "/d", &home()).message();
    assert!(err.contains("named by path"), "{err}");
    assert!(err.contains("terra ./pi-dev.yaml setup"), "the fix is spelled out: {err}");
}

#[test]
fn dotted_path_is_local() {
    let p = resolve_recipe_path("./pi-dev.yaml", "/project", &home()).unwrap();
    assert_eq!(Path::new(&p), Path::new("/project/pi-dev.yaml"));
}

#[test]
fn absolute_path_is_kept() {
    let p = resolve_recipe_path("/elsewhere/x.yaml", "/project", &home()).unwrap();
    assert_eq!(p, "/elsewhere/x.yaml");
}

#[test]
fn tilde_expands() {
    let p = resolve_recipe_path("~/.terra/x.yaml", "/proj", &home()).unwrap();
    assert_eq!(p, "/home/me/.terra/x.yaml");
}

#[test]
fn a_bare_yaml_filename_is_a_path() {
    for file in ["ci.yaml", "ci.yml"] {
        assert!(is_path(file, HostOs::Linux), "{file}");
        let p = resolve_recipe_path(file, "/project", &home()).unwrap();
        assert_eq!(p, format!("/project/{file}"));
    }
    assert!(!is_path("ci", HostOs::Linux));
    assert!(!is_path("ci.v2", HostOs::Linux), "an extension that is not a recipe's");
    let file = BoxArg::parse("ci.yaml", HostOs::Linux).unwrap();
    assert!(matches!(file, BoxArg::RecipePath { name, .. } if name == "ci"));
}

#[test]
fn a_stem_that_is_not_a_name_is_refused_not_munged() {
    let file = BoxArg::parse("./ci.v2.yaml", HostOs::Linux).unwrap();
    assert!(matches!(file, BoxArg::RecipePath { name, .. } if name == "ci.v2"));
    for bad in ["./My Recipe.yaml", "./.hidden.yaml", "./é.yaml", "./-x.yaml"] {
        let err = BoxArg::parse(bad, HostOs::Linux).unwrap_err().full_message();
        assert!(err.contains("cannot name a box"), "{bad}: {err}");
        assert!(err.contains(bad), "the argument it came from: {err}");
    }
}

#[test]
fn the_manifest_chooses_what_a_name_resolves_to() {
    let declared = || manifest(&[("dev", "./dev-recipe.yaml")]);
    let from_manifest = |found: Source, wanted: &str| match found {
        Source::Manifest(recipe) => {
            assert_eq!(Path::new(&recipe.from), Path::new("/project/dev-recipe.yaml"));
            assert_eq!(recipe.text, wanted);
        }
        other => panic!("the manifest chose this recipe, so the source must say so: {other:?}"),
    };
    let found = resolve(
        &named(),
        &around(declared(), Some("/project")),
        &facts(false, text("hw:\n  cpus: 1\n"), None),
        Existence::MayBeMissing,
    )
    .unwrap();
    from_manifest(found.source, "hw:\n  cpus: 1\n");

    let other = facts(false, FileRead::Missing, None);
    let error = resolve(
        &BoxArg::Name("other".to_string()),
        &around(declared(), Some("/project")),
        &other,
        Existence::MayBeMissing,
    )
    .unwrap_err()
    .full_message();
    assert!(error.contains("bare word"), "{error}");

    let found = resolve_for_setup(
        &named(),
        &around(declared(), Some("/cwd")),
        &facts(true, text("new"), Some("old")),
    )
    .unwrap();
    from_manifest(found.source, "new");
    let undeclared = resolve_for_setup(
        &named(),
        &around(manifest(&[]), Some("/cwd")),
        &facts(true, text("new"), Some("old")),
    )
    .unwrap();
    assert!(matches!(undeclared.source, Source::Pinned));
}

#[test]
fn a_manifest_reference_resolves_against_the_project_not_the_shell() {
    let found = resolve(
        &named(),
        &around(manifest(&[("dev", "./dev.yaml")]), Some("/elsewhere")),
        &facts(false, text("hw:\n  cpus: 3\n"), None),
        Existence::MayBeMissing,
    )
    .unwrap();
    match found.source {
        Source::Manifest(recipe) => {
            assert_eq!(Path::new(&recipe.from), Path::new("/project/dev.yaml"));
            assert!(recipe.text.contains("cpus: 3"), "{}", recipe.text);
        }
        other => panic!("the manifest chose this recipe, so the source must say so: {other:?}"),
    }

    let message = resolve(
        &named(),
        &around(manifest(&[("dev", "./only-here.yaml")]), Some("/elsewhere")),
        &facts(false, FileRead::Missing, None),
        Existence::MayBeMissing,
    )
    .expect_err("a reference pointing nowhere in the project must not resolve")
    .full_message();
    assert!(message.contains("config not found"), "{message}");
    assert!(message.contains("/project"), "the path it looked for is the project's: {message}");
    assert!(!message.contains("/elsewhere"), "it looked in the shell's directory: {message}");

    let path = BoxArg::parse("./dev.yaml", HostOs::Linux).unwrap();
    let found = resolve(
        &path,
        &around(None, Some("/elsewhere")),
        &facts(false, text("x"), None),
        Existence::MayBeMissing,
    )
    .unwrap();
    assert!(matches!(found.source, Source::File(r) if Path::new(&r.from) == Path::new("/elsewhere/dev.yaml")));
}

#[test]
fn a_recipe_path_is_read_only_where_there_is_a_shell_directory_for_it() {
    let path = || BoxArg::parse("./ci.yaml", HostOs::Linux).unwrap();
    let ci = |recipe| facts(false, recipe, None);
    let error = resolve_pinned_box(&path(), &around(None, None), &ci(text("hw:\n  cpus: 1\n")))
        .unwrap_err()
        .full_message();
    assert!(error.contains("box name"), "{error}");
    assert!(error.contains("is a recipe path"), "{error}");

    let found = resolve(
        &path(),
        &around(None, Some("/project")),
        &ci(text("hw:\n  cpus: 1\n")),
        Existence::MayBeMissing,
    )
    .unwrap();
    match found.source {
        Source::File(recipe) => {
            assert_eq!(Path::new(&recipe.from), Path::new("/project/ci.yaml"));
        }
        other => panic!("a typed path is the recipe, whatever the box has pinned: {other:?}"),
    }
    assert_eq!(found.bx.name(), "ci", "the box takes the file's stem");
}

#[test]
fn operating_on_a_box_resolves_lexically_unless_the_box_must_exist() {
    let missing = || facts(false, FileRead::Missing, None);
    let found =
        resolve(&named(), &around(None, None), &missing(), Existence::MayBeMissing).unwrap();
    assert_eq!(found.bx.name(), "dev");
    let error = resolve_pinned_box(&named(), &around(None, None), &missing()).unwrap_err();
    assert!(error.message().contains("no box 'dev' in /project"), "{}", error.message());
    assert!(resolve_pinned_box(&named(), &around(None, None), &facts(true, FileRead::Missing, None)).is_ok());
}

#[test]
fn a_missing_recipe_is_reported_but_not_an_error_by_itself() {
    assert!(read_recipe("./nope.yaml", "/d", &home(), &FileRead::Missing).unwrap().is_none());

    let plain = build_missing_recipe_error("./nope.yaml", "./nope.yaml", "/d", &home()).message();
    assert!(plain.contains("config not found"), "{plain}");
    assert!(!plain.contains("terra.yaml"), "{plain}");
    assert_eq!(
        plain,
        "config not found: /d/./nope.yaml (terra ./nope.yaml setup reads and pins the file)"
    );

    let via_manifest = build_missing_recipe_error("dev", "./gone.yaml", "/d", &home()).message();
    assert!(via_manifest.contains("config not found"), "{via_manifest}");
    assert!(via_manifest.contains("terra.yaml"), "{via_manifest}");

    let found =
        read_recipe("./here.yaml", "/d", &home(), &text("hw:\n  cpus: 1\n")).unwrap().unwrap();
    assert_eq!(Path::new(&found.from), Path::new("/d/here.yaml"));
    assert!(found.text.contains("cpus: 1"));
}

#[test]
fn start_target_keeps_the_real_error_underneath_the_no_box_lead() {
    let chain = resolve(
        &named(),
        &around(manifest(&[("dev", "./gone.yaml")]), Some("/project")),
        &facts(false, FileRead::Missing, None),
        Existence::MayBeMissing,
    )
    .unwrap_err()
    .full_message();
    assert!(chain.contains("no box 'dev'"), "{chain}");
    assert!(chain.contains("never been set up"), "{chain}");
    assert!(
        chain.contains("config not found: /project/./gone.yaml"),
        "the cause was discarded: {chain}"
    );
}

#[test]
fn a_reading_says_when_the_manifest_would_pin_something_else() {
    let found = |arg: &BoxArg, recipe, pinned: Option<&str>| {
        resolve(
            arg,
            &around(manifest(&[("dev", "./dev.yaml")]), Some("/project")),
            &facts(true, recipe, pinned),
            Existence::MayBeMissing,
        )
        .unwrap()
    };
    let divergence = |recipe, pinned| found(&named(), recipe, pinned).manifest_divergence;
    let pinned = Some("hw:\n  cpus: 1\n");

    let agreed = found(&named(), text("hw:\n  cpus: 1\n"), pinned);
    assert!(matches!(agreed.source, Source::Pinned));
    assert_eq!(agreed.manifest_divergence, None);

    let diverged = found(&named(), text("hw:\n  cpus: 8\n"), pinned);
    assert!(matches!(diverged.source, Source::Pinned), "the pin is still what a boot runs");
    assert_eq!(
        diverged.manifest_divergence.as_deref().map(Path::new),
        Some(Path::new("/project/dev.yaml")),
        "the recipe `terra setup` would pin instead goes unreported"
    );

    let path = BoxArg::parse("./dev.yaml", HostOs::Linux).unwrap();
    assert_eq!(found(&path, text("hw:\n  cpus: 8\n"), pinned).manifest_divergence, None);

    assert_eq!(divergence(FileRead::Missing, pinned), None);
    assert_eq!(divergence(FileRead::Unreadable("denied".to_string()), pinned), None);
    assert_eq!(divergence(text("hw:\n  cpus: 8\n"), None), None);
}

#[test]
fn setup_blames_the_manifest_for_a_dangling_reference_to_a_pinned_box() {
    let error = resolve_for_setup(
        &named(),
        &around(manifest(&[("dev", "./gone.yaml")]), Some("/project")),
        &facts(true, FileRead::Missing, Some("hw:\n  cpus: 1\n")),
    )
    .expect_err("a dangling manifest reference must fail setup")
    .full_message();
    assert!(error.contains("terra.yaml"), "{error}");
    assert!(error.contains("points at './gone.yaml'"), "{error}");
    assert!(!error.contains("never been set up"), "{error}");
    assert!(!error.contains("no box"), "{error}");
}

#[test]
fn an_unreadable_recipe_is_its_own_error_not_a_missing_box() {
    let chain = resolve(
        &named(),
        &around(manifest(&[("dev", "./locked.yaml")]), Some("/project")),
        &facts(false, FileRead::Unreadable("denied".to_string()), None),
        Existence::MayBeMissing,
    )
    .unwrap_err()
    .full_message();
    assert_eq!(chain, "reading /project/./locked.yaml: denied");
    assert!(!chain.contains("never been set up"), "{chain}");
}

#[test]
fn a_command_that_names_no_box_means_the_only_one() {
    let names = |list: &[&str]| -> Vec<String> { list.iter().map(|n| n.to_string()).collect() };
    assert_eq!(choose_default_box_name("/p", &names(&["dev"]), &None).unwrap(), "dev");
    assert_eq!(
        choose_default_box_name("/p", &names(&[]), &manifest(&[("ci", "./ci.yaml")])).unwrap(),
        "ci"
    );
    let error = choose_default_box_name("/p", &names(&["b", "a"]), &None).unwrap_err().message();
    assert_eq!(error, "/p has several boxes - name one: a, b");
    let error = choose_default_box_name("/p", &names(&[]), &None).unwrap_err().message();
    assert!(error.contains("no box in /p"), "{error}");
    let two = manifest(&[("b", "./b.yaml"), ("a", "./a.yaml")]);
    let error = choose_default_box_name("/p", &names(&[]), &two).unwrap_err().message();
    assert!(error.contains("terra.yaml declares a, b, and none is set up yet"), "{error}");
    assert_eq!(list_known_names_with(&names(&["c", "a"]), &two), ["a", "b", "c"]);
    assert!(
        build_missing_box_error("/p", Some("a"), &two).message().contains("terra.yaml declares it")
    );
    match choose_target(None, "/p", &Ok(names(&["dev"])), &None, HostOs::Linux).unwrap() {
        BoxArg::Name(name) => assert_eq!(name, "dev"),
        other => panic!("{other:?}"),
    }
    assert_eq!(
        choose_target(None, "/p", &Err("denied".to_string()), &None, HostOs::Linux).unwrap_err().message(),
        "denied"
    );
}

#[test]
fn a_backslash_separates_on_windows_alone() {
    let windows = HostOs::Windows;
    assert!(is_path("recipes\\ci", windows));
    assert!(!is_path("recipes\\ci", HostOs::Linux));
    assert!(!is_path("recipes\\ci", HostOs::MacOs));
    assert!(BoxArg::parse("recipes\\ci", HostOs::Linux).is_err(), "no box can be called that");
    for path in ["recipes\\ci.yaml", "recipes\\ci", "C:\\recipes\\ci.yaml", "C:ci.yaml"] {
        match BoxArg::parse(path, windows).unwrap() {
            BoxArg::RecipePath { path: kept, name } => {
                assert_eq!(kept, path);
                assert_eq!(name, "ci");
            }
            BoxArg::Name(name) => panic!("{name}"),
        }
    }
    let home = Home { dir: Ok("C:/Users/me".to_string()), os: windows };
    for (path, whole) in [
        ("recipes\\ci.yaml", "D:/p/recipes/ci.yaml"),
        ("~\\ci.yaml", "C:/Users/me/ci.yaml"),
        ("E:\\ci.yaml", "E:/ci.yaml"),
        ("\\ci.yaml", "D:/ci.yaml"),
        ("\\\\server\\share\\ci.yaml", "//server/share/ci.yaml"),
    ] {
        assert_eq!(resolve_recipe_path(path, "D:/p", &home).unwrap(), whole);
    }
    assert_eq!(box_home_path(&home, &Some("D:\\boxes".to_string())).unwrap(), "D:/boxes");
    for relative in ["boxes", "\\boxes", "D:boxes"] {
        let error = box_home_path(&home, &Some(relative.to_string())).unwrap_err().message();
        assert!(error.contains("must be an absolute path"), "{relative}: {error}");
    }
}
