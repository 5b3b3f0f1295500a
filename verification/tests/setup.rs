//! Pinning a recipe to a box, and making the box.

use terra::config::{Components, Config, Mount, Volume};
use terra::env_file::EnvRead;
use terra::error::Error;
use terra::mount::PinnedPaths;
use terra::resolve::{Recipe, ResolvedBox, Source};
use terra::setup::approve::{
    ApprovalFacts, ApprovedRecipe, PathFacts, PendingApproval, request_recipe_approval,
};
use terra::setup::prepare::{
    PrepareStep, Rebuild, SweepStep, check_setup_holder, check_state_dir, plan_preparation,
    sweep_or_keep_unused_volumes,
};
use terra::setup::{
    Approval, Carrier, PinAction, PinQuestion, RecipeAuthorship, SensitiveMount, answer_is_yes,
    build_adoption_reason, decide_pinning, describe_sensitive_mount,
    find_guest_writable_share_containing, prompt, render_approval_page, validate_storage_devices,
};
use terra::show::{ShowFacts, Shown, show};
use terra::state::{BoxRef, Holder};

const MAX_GUEST_STORAGE_DEVICES: usize = 32;

fn config() -> Config {
    Config::with_components(Components { memory_mib: 16, total_memory_mib: 64, network: None })
}

fn dev() -> BoxRef {
    BoxRef::resolve("/project", "/project", "/boxes", "dev")
}

fn by_hand(trust_recipe: bool) -> Approval {
    Approval::ChosenByHand { trust_recipe }
}

fn target(source: Source) -> ResolvedBox {
    ResolvedBox { bx: dev(), source, manifest_divergence: None }
}

fn file(text: &str) -> Source {
    Source::File(Recipe { from: "/project/a-new.yaml".to_string(), text: text.to_string() })
}

fn facts() -> ApprovalFacts {
    ApprovalFacts {
        max_socket_path: 107,
        host_root: Ok(()),
        parsed: Ok(config()),
        mounts: Ok(Vec::new()),
        max_devices: MAX_GUEST_STORAGE_DEVICES,
        pinned_text: String::new(),
        authorship: None,
        sensitive: Vec::new(),
    }
}

fn authored() -> Option<RecipeAuthorship> {
    Some(RecipeAuthorship::WritableShare {
        recipe_or_manifest: "/project/a-new.yaml".to_string(),
        share: "/project".to_string(),
    })
}

fn request(
    source: Source,
    facts: ApprovalFacts,
    approval: Approval,
    is_at_a_terminal: bool,
) -> Result<PendingApproval, Error> {
    request_recipe_approval(target(source), facts, approval, is_at_a_terminal)
}

#[test]
fn only_a_yes_pins_and_a_bare_enter_takes_the_default_it_was_offered() {
    for yes in ["y", "Y", "yes", "Yes", "YES", " y \n", "yes\r\n"] {
        assert!(answer_is_yes(yes, false), "{yes:?} is a yes");
        assert!(answer_is_yes(yes, true), "{yes:?} is a yes");
    }
    for empty in ["", "\n", "  \n", "\r\n"] {
        assert!(answer_is_yes(empty, true), "{empty:?} under [Y/n]");
        assert!(!answer_is_yes(empty, false), "{empty:?} under [y/N]");
    }
    for no in ["n", "N", "no", "No", "yep", "ok", "sure", "y es", "1"] {
        assert!(!answer_is_yes(no, false), "{no:?} is not a yes");
        assert!(!answer_is_yes(no, true), "{no:?} is not a yes");
    }
    assert_eq!(prompt(true), "terra: pin it? [Y/n] ");
    assert_eq!(prompt(false), "terra: pin it? [y/N] ");
}

#[test]
fn what_a_pinning_asks_is_decided_by_who_vouches_for_it() {
    for trust_recipe in [false, true] {
        for is_at_a_terminal in [false, true] {
            assert_eq!(
                decide_pinning(by_hand(trust_recipe), false, is_at_a_terminal),
                PinAction::WithoutAsking,
                "trust_recipe={trust_recipe} is_at_a_terminal={is_at_a_terminal}"
            );
        }
    }
    assert_eq!(
        decide_pinning(by_hand(false), true, true),
        PinAction::Ask { default_yes: false }
    );
    assert_eq!(decide_pinning(by_hand(false), true, false), PinAction::RefuseUnasked);
    for is_at_a_terminal in [false, true] {
        assert_eq!(
            decide_pinning(by_hand(true), true, is_at_a_terminal),
            PinAction::WarnAndPin,
            "is_at_a_terminal={is_at_a_terminal}"
        );
    }
    assert_eq!(
        decide_pinning(Approval::Offer, false, true),
        PinAction::Ask { default_yes: true }
    );
    assert_eq!(
        decide_pinning(Approval::Offer, true, true),
        PinAction::Ask { default_yes: false }
    );
    for is_suspect in [false, true] {
        assert_eq!(
            decide_pinning(Approval::Offer, is_suspect, false),
            PinAction::RefuseUnasked,
            "is_suspect={is_suspect}"
        );
    }
    for is_at_a_terminal in [false, true] {
        assert_eq!(
            decide_pinning(Approval::Reported, false, is_at_a_terminal),
            PinAction::ReportOnly,
            "is_at_a_terminal={is_at_a_terminal}"
        );
    }
    assert_eq!(decide_pinning(Approval::Reported, true, true), PinAction::ReportOnly);
    assert_eq!(decide_pinning(Approval::Reported, true, false), PinAction::RefuseUnasked);
}

#[test]
fn another_projects_relative_share_makes_recipe_and_manifest_suspect() {
    let carrier = |path: &str| Carrier { path: path.to_string(), followed: path.to_string() };
    let shares = || Some(vec![Some(vec!["/root/target".to_string()])]);
    let find = |files: &[&str], boxes: Option<Vec<Option<Vec<String>>>>| {
        find_guest_writable_share_containing(
            &files.iter().map(|path| carrier(path)).collect(),
            &boxes,
        )
    };
    assert!(matches!(
        find(&["/root/target/evil.yaml"], shares()),
        Some(RecipeAuthorship::WritableShare { .. })
    ));
    assert!(matches!(
        find(&["/root/outside.yaml", "/root/target/terra.yaml"], shares()),
        Some(RecipeAuthorship::WritableShare { .. })
    ));
    assert!(find(&["/root/outside.yaml"], shares()).is_none());
    assert!(matches!(
        find(&["/root/target/evil.yaml"], Some(vec![None])),
        Some(RecipeAuthorship::UnreadablePinnedRecipe)
    ));
    assert!(matches!(
        find(&["/root/outside.yaml"], None),
        Some(RecipeAuthorship::UnreadablePinnedRecipe)
    ));
}

#[test]
fn combined_volumes_and_mounts_fit_the_vmm() {
    let mut cfg = config();
    for index in 0..MAX_GUEST_STORAGE_DEVICES {
        cfg.mounts.push(Mount {
            host: format!("/host/{index}"),
            guest: format!("/guest/{index}"),
            readonly: false,
        });
    }
    assert!(validate_storage_devices(&cfg, MAX_GUEST_STORAGE_DEVICES).is_ok());
    cfg.volumes.push(Volume {
        name: "over".to_string(),
        guest: "/data".to_string(),
        size_mib: 1,
    });
    let err = validate_storage_devices(&cfg, MAX_GUEST_STORAGE_DEVICES).unwrap_err().message();
    assert!(err.contains("combined volumes and host-directory mounts"), "{err}");
    assert!(err.contains(&MAX_GUEST_STORAGE_DEVICES.to_string()), "{err}");
}

#[test]
fn a_sibling_share_makes_a_repin_suspect_too() {
    let suspect = || ApprovalFacts {
        pinned_text: "hw:\n  cpus: 1\n".to_string(),
        authorship: authored(),
        ..facts()
    };
    let pending = request(file("hw:\n  cpus: 2\n"), suspect(), by_hand(false), false).unwrap();
    let err = pending.settle("").unwrap_err().message();
    assert!(err.contains("may be the author"), "{err}");
    assert!(err.contains("--trust-recipe"), "{err}");

    for is_at_a_terminal in [false, true] {
        let pending =
            request(file("hw:\n  cpus: 2\n"), suspect(), by_hand(true), is_at_a_terminal).unwrap();
        assert!(matches!(&pending.question, PinQuestion::Notice(text) if text.contains("--trust-recipe")));
        let agreed = pending.settle("").expect("--trust-recipe should pin without asking");
        assert!(agreed.new_pin.is_some(), "the recipe should be adopted");
    }
}

#[test]
fn readwrite_sensitive_mounts_are_suspect_and_warn_on_pinning() {
    let sensitive = |readonly| SensitiveMount {
        host: "/home/me/.ssh".to_string(),
        readonly,
        category: "SSH keys".to_string(),
    };
    let with = |readonly| ApprovalFacts { sensitive: vec![sensitive(readonly)], ..facts() };
    let err = request(file("x"), with(false), by_hand(false), false)
        .unwrap()
        .settle("")
        .unwrap_err()
        .message();
    assert!(err.contains("shares sensitive host SSH keys"), "{err}");
    assert!(err.contains("(read-write)"), "{err}");
    assert!(err.contains("--trust-recipe"), "{err}");
    let agreed = request(file("x"), with(false), by_hand(true), false).unwrap().settle("").unwrap();
    assert!(agreed.new_pin.is_some());
    // Read-only it is warned of nowhere, as nothing is asked.
    let pending = request(file("x"), with(true), by_hand(false), false).unwrap();
    assert!(matches!(pending.question, PinQuestion::Nothing));
    assert_eq!(
        describe_sensitive_mount(&sensitive(true)),
        "mount '/home/me/.ssh' shares sensitive host SSH keys (read-only) with the sandbox"
    );
}

#[test]
fn an_approval_is_put_and_answered() {
    let pending = request(file("x"), facts(), Approval::Offer, true).unwrap();
    match &pending.question {
        PinQuestion::Ask { page, default_yes } => {
            assert!(*default_yes);
            assert!(page.starts_with("terra: no box 'dev' in /project yet - "), "{page}");
            assert!(page.contains("It would grant:\n"), "{page}");
        }
        other => panic!("{other:?}"),
    }
    assert!(pending.settle("\n").is_ok());
    let pending = request(file("x"), facts(), Approval::Offer, true).unwrap();
    assert_eq!(pending.settle("n").unwrap_err().message(), "not pinned - the box is unchanged");

    // A recipe that is pinned as it stands is not put at all.
    let same = ApprovalFacts { pinned_text: "x".to_string(), ..facts() };
    let pending = request(file("x"), same, by_hand(false), false).unwrap();
    assert!(pending.new_pin.is_none());
    assert!(matches!(pending.question, PinQuestion::Nothing));
    let pending = request(Source::Pinned, facts(), Approval::Offer, false).unwrap();
    assert!(pending.new_pin.is_none());
}

#[test]
fn the_first_refusal_is_the_one_that_is_reported() {
    let refused = |name: &str| Error::new(name.to_string());
    let all = || ApprovalFacts {
        max_socket_path: 1,
        host_root: Err(refused("root")),
        parsed: Err(refused("recipe")),
        mounts: Err(refused("mounts")),
        max_devices: 0,
        ..facts()
    };
    let message = |facts| request(file("x"), facts, by_hand(true), true).unwrap_err().message();
    assert!(message(all()).contains("too long"));
    assert_eq!(message(ApprovalFacts { max_socket_path: 107, ..all() }), "root");
    assert_eq!(message(ApprovalFacts { max_socket_path: 107, host_root: Ok(()), ..all() }), "recipe");
    assert_eq!(message(ApprovalFacts { mounts: Err(refused("mounts")), ..facts() }), "mounts");
    let mount = Mount { host: "/a".to_string(), guest: "/a".to_string(), readonly: true };
    let crowded = ApprovalFacts { mounts: Ok(vec![mount]), max_devices: 0, ..facts() };
    assert!(message(crowded).contains("at most 0"));
}

fn paths(mounts: &[&str], env_file: Option<&str>) -> PinnedPaths {
    PinnedPaths {
        mounts: mounts.iter().map(|host| host.to_string()).collect(),
        env_file: env_file.map(str::to_string),
    }
}

fn approve(
    source: Source,
    env_file: Option<&str>,
    followed: &str,
    stored: Option<PinnedPaths>,
    refresh: bool,
) -> Result<ApprovedRecipe, Error> {
    let mut cfg = config();
    cfg.env_file = env_file.map(str::to_string);
    let mount = Mount { host: "/safe/share".to_string(), guest: "/work".to_string(), readonly: false };
    let facts = ApprovalFacts { parsed: Ok(cfg), mounts: Ok(vec![mount]), ..facts() };
    request(source, facts, by_hand(true), true)?
        .settle("")?
        .approve(
            PathFacts {
                env_file: Ok(followed.to_string()),
                stored: Ok(stored),
                env_text: EnvRead::Text("A=1\n".to_string()),
            },
            refresh,
        )
        .1
}

#[test]
fn a_changed_pinned_target_needs_setup_before_any_source_can_boot_it() {
    let pinned = || Some(paths(&["/safe/share"], Some("/safe/env")));
    let unchanged =
        approve(Source::Pinned, Some("./env"), "/safe/env", pinned(), false).unwrap();
    assert!(unchanged.pinned_paths.is_none());
    assert_eq!(unchanged.cfg.env.get("A").map(String::as_str), Some("1"));
    assert_eq!(unchanged.cfg.env_file.as_deref(), Some("/safe/env"));

    let error = approve(Source::Pinned, Some("./env"), "/private/env", pinned(), false)
        .unwrap_err()
        .message();
    assert!(error.contains("moved since it was pinned"), "{error}");
    let moved = Some(paths(&["/private/share"], Some("/safe/env")));
    assert!(approve(Source::Pinned, Some("./env"), "/safe/env", moved, false).is_err());
    assert!(approve(Source::Pinned, Some("./env"), "/safe/env", None, false).is_err());

    // An explicit setup, or a new recipe, pins them anew.
    let refreshed =
        approve(Source::Pinned, Some("./env"), "/private/env", pinned(), true).unwrap();
    let fresh = refreshed.pinned_paths.unwrap();
    assert_eq!(fresh.env_file.as_deref(), Some("/private/env"));
    assert_eq!(fresh.mounts, ["/safe/share"]);
    let renewed = approve(file("x"), Some("./env"), "/private/env", pinned(), false).unwrap();
    assert!(renewed.pinned_paths.is_some() && renewed.new_pin.is_some());
}

#[test]
fn an_env_file_is_resolved_before_it_is_read() {
    let agreed = || {
        let mut cfg = config();
        cfg.env_file = Some("/p/env".to_string());
        let facts = ApprovalFacts { parsed: Ok(cfg), ..facts() };
        request(Source::Pinned, facts, by_hand(false), false).unwrap().settle("").unwrap()
    };
    let with = |env_file: Result<&str, &str>, env_text| PathFacts {
        env_file: env_file.map(str::to_string).map_err(str::to_string),
        stored: Ok(None),
        env_text,
    };
    let message = |facts| agreed().approve(facts, true).1.unwrap_err().full_message();
    let text = || EnvRead::Text("A=1".to_string());
    assert_eq!(message(with(Err("gone"), text())), "resolving env file /p/env: gone");
    assert_eq!(
        message(with(Ok("/f/env"), EnvRead::Unopened("denied".to_string()))),
        "opening env file /f/env: denied"
    );
    assert_eq!(
        message(with(Ok("/f/env"), EnvRead::Unreadable("bad".to_string()))),
        "reading env file /f/env: bad"
    );
    let broken = PathFacts {
        env_file: Ok("/f/env".to_string()),
        stored: Err(Error::new("paths".to_string())),
        env_text: text(),
    };
    assert_eq!(message(broken), "paths");
}

#[test]
fn a_name_an_existing_box_holds_in_another_case_is_refused() {
    let named = |name: &str| BoxRef::resolve("/project", "/project", "/boxes", name);
    let existing = vec!["dev".to_string()];
    let err = check_state_dir(&named("DEV"), true, &existing).unwrap_err().message();
    assert!(err.contains("only by case"), "{err}");
    assert!(err.contains("terra dev"), "the box that is already there: {err}");
    assert!(check_state_dir(&named("dev"), true, &existing).is_ok());
    assert!(check_state_dir(&named("ci"), true, &existing).is_ok());
    let err = check_state_dir(&named("ci"), false, &existing).unwrap_err().message();
    assert!(err.contains("is not a directory"), "{err}");
}

#[test]
fn a_dropped_volume_s_image_is_kept_until_rebuild_asks_for_the_sweep() {
    let bx = dev();
    let files = vec!["vol-data.img".to_string(), "vol-old.img".to_string()];
    let unused = bx.unused_volume_images(&files, &vec!["data".to_string()]);
    assert_eq!(unused, [bx.volume_img("old")]);
    let kept = sweep_or_keep_unused_volumes(&bx, &unused, Rebuild::No);
    assert!(matches!(&kept[..], [SweepStep::Keep { notice }] if notice.contains("storage prune")));
    let swept = sweep_or_keep_unused_volumes(&bx, &unused, Rebuild::Yes);
    assert!(matches!(&swept[..], [SweepStep::Remove { path }] if *path == bx.volume_img("old")));
}

fn approved(new_pin: bool) -> ApprovedRecipe {
    ApprovedRecipe {
        bx: dev(),
        cfg: config(),
        new_pin: if new_pin {
            Some(Recipe { from: "/project/dev.yaml".to_string(), text: "x".to_string() })
        } else {
            None
        },
        pinned_paths: None,
    }
}

#[test]
fn rebuild_takes_the_bake_stamp_with_the_rootfs() {
    let plan = plan_preparation(&approved(false), Rebuild::Yes, true, true);
    assert!(plan.fresh_rootfs);
    let removes_root = plan.steps.iter().position(|s| matches!(s, PrepareStep::RemoveRootfs));
    let removes_stamp = plan.steps.iter().position(|s| matches!(s, PrepareStep::RemoveStamp));
    assert!(removes_root.unwrap() < removes_stamp.unwrap());
    assert!(matches!(plan.steps.last(), Some(PrepareStep::MakeRootfs(512))));

    let plan = plan_preparation(&approved(false), Rebuild::No, true, true);
    assert!(!plan.fresh_rootfs);
    assert_eq!(plan.steps.len(), 1);
    let plan = plan_preparation(&approved(true), Rebuild::No, true, false);
    assert!(plan.fresh_rootfs);
    assert!(matches!(&plan.steps[0], PrepareStep::Say(text) if text.contains("recipe updated from")));
    assert!(matches!(plan.steps[1], PrepareStep::PinRecipe));
}

#[test]
fn a_held_box_is_not_set_up() {
    assert!(check_setup_holder(&dev(), Holder::Free).is_ok());
    assert!(check_setup_holder(&dev(), Holder::SettingUp).is_err());
    let err = check_setup_holder(&dev(), Holder::Running).unwrap_err().message();
    assert!(err.contains("`terra dev stop` before setting it up again"), "{err}");
}

#[test]
fn a_suspicion_says_what_it_rests_on() {
    let manifest = RecipeAuthorship::WritableShare {
        recipe_or_manifest: "/project/terra.yaml".to_string(),
        share: "/project".to_string(),
    };
    let why = build_adoption_reason("/elsewhere/dev.yaml", &manifest);
    assert!(why.contains("/project/terra.yaml lives inside '/project'"), "{why}");
    assert!(why.contains("names /elsewhere/dev.yaml as this box's recipe"), "{why}");
    let own = build_adoption_reason("/project/a-new.yaml", &authored().unwrap());
    assert!(!own.contains("it is what names"), "{own}");
    let unread = build_adoption_reason("/x.yaml", &RecipeAuthorship::UnreadablePinnedRecipe);
    assert!(unread.contains("cannot be read"), "{unread}");
    let page = render_approval_page("lead", &Some("careful".to_string()), &config());
    assert!(page.starts_with("lead\ncareful\nIt would grant:\n"), "{page}");
}

fn shown(source: Source, facts: ShowFacts, with_env_values: bool) -> Shown {
    show(&target(source), facts, with_env_values)
}

fn show_facts(env_file: Result<&str, &str>, stored: Option<PinnedPaths>, text: &str) -> ShowFacts {
    let mut cfg = config();
    cfg.env_file = Some("./secrets.env".to_string());
    cfg.env.insert("MODEL".to_string(), "gpt-4o".to_string());
    ShowFacts {
        parsed: Ok(cfg),
        mounts: Ok(Vec::new()),
        sensitive: Vec::new(),
        paths: PathFacts {
            env_file: env_file.map(str::to_string).map_err(str::to_string),
            stored: Ok(stored),
            env_text: EnvRead::Text(text.to_string()),
        },
    }
}

#[test]
fn show_prints_a_recipe_whose_env_file_is_not_there_yet() {
    let missing = shown(file("x"), show_facts(Err("not found"), None, ""), true);
    assert_eq!(
        missing.said,
        ["terra: warning: resolving env file ./secrets.env: not found\n\
          terra: printing the recipe without those values - a boot would refuse it"]
    );
    let recipe = missing.recipe.unwrap();
    assert_eq!(recipe.env.get("MODEL").map(String::as_str), Some("gpt-4o"));
    assert_eq!(recipe.env_file.as_deref(), Some("./secrets.env"));

    let there = shown(file("x"), show_facts(Ok("/p/secrets.env"), None, "API_KEY=sk-1\n"), true);
    assert!(there.said.is_empty());
    let recipe = there.recipe.unwrap();
    assert_eq!(recipe.env.get("API_KEY").map(String::as_str), Some("sk-1"));

    // A file that is refused part-way sets nothing.
    let broken = shown(file("x"), show_facts(Ok("/p/secrets.env"), None, "API_KEY=1\nno\n"), true);
    assert_eq!(broken.recipe.unwrap().env.get("API_KEY"), None);

    let hidden = shown(file("x"), show_facts(Ok("/p/secrets.env"), None, "API_KEY=sk-1\n"), false);
    let recipe = hidden.recipe.unwrap();
    assert_eq!(
        recipe.env.get("API_KEY").map(String::as_str),
        Some("(set - value not printable)")
    );
}

#[test]
fn show_refuses_a_pinned_recipe_whose_paths_moved() {
    let pinned = || Some(paths(&[], Some("/safe/values.env")));
    let unmoved = shown(Source::Pinned, show_facts(Ok("/safe/values.env"), pinned(), ""), true);
    assert!(unmoved.recipe.is_ok());
    let moved = shown(Source::Pinned, show_facts(Ok("/private/values.env"), pinned(), ""), true);
    let error = moved.recipe.unwrap_err().message();
    assert!(error.contains("moved since it was pinned"), "{error}");
    let gone = shown(Source::Pinned, show_facts(Err("not found"), pinned(), ""), true);
    assert_eq!(
        gone.recipe.unwrap_err().full_message(),
        "resolving env file ./secrets.env: not found"
    );
}

#[test]
fn show_resolves_and_judges_the_mounts_a_boot_would_get() {
    let refused = || ShowFacts {
        mounts: Err(Error::new("this box's own state".to_string())),
        ..show_facts(Ok("/p/.env"), Some(paths(&[], Some("/p/.env"))), "")
    };
    let shown_anyway = shown(file("x"), refused(), true);
    assert!(shown_anyway.recipe.is_ok());
    assert!(shown_anyway.said[0].contains("this box's own state"), "{:?}", shown_anyway.said);
    assert!(shown(Source::Pinned, refused(), true).recipe.is_err());

    let mount = Mount { host: "/home/me/.ssh".to_string(), guest: "/k".to_string(), readonly: true };
    let sensitive = SensitiveMount {
        host: "/home/me/.ssh".to_string(),
        readonly: true,
        category: "SSH keys".to_string(),
    };
    let facts = ShowFacts {
        mounts: Ok(vec![mount]),
        sensitive: vec![sensitive],
        ..show_facts(Ok("/p/.env"), None, "")
    };
    let warned = shown(file("x"), facts, true);
    assert_eq!(
        warned.said,
        ["terra: warning: mount '/home/me/.ssh' shares sensitive host SSH keys (read-only) \
          with the sandbox"]
    );
    assert_eq!(warned.recipe.unwrap().mounts[0].guest, "/k");
}

#[test]
fn show_tells_of_a_manifest_that_names_another_recipe() {
    let target = ResolvedBox {
        manifest_divergence: Some("/project/new.yaml".to_string()),
        ..target(Source::Pinned)
    };
    let facts = ShowFacts {
        parsed: Err(Error::new("unreadable".to_string())),
        ..show_facts(Ok("/p/.env"), None, "")
    };
    let shown = show(&target, facts, false);
    assert_eq!(shown.recipe.unwrap_err().message(), "unreadable");
    assert_eq!(shown.said.len(), 1);
    assert!(shown.said[0].contains("names /project/new.yaml instead"), "{:?}", shown.said);
}

#[test]
fn show_prints_recipe_with_sensitive_mounts() {
    let mount = Mount { host: "/h/.ssh".to_string(), guest: "/ssh".to_string(), readonly: true };
    let facts = ShowFacts {
        mounts: Ok(vec![mount]),
        sensitive: vec![SensitiveMount {
            host: "/h/.ssh".to_string(),
            readonly: true,
            category: "SSH keys".to_string(),
        }],
        ..show_facts(Ok("/p/.env"), None, "")
    };
    assert!(shown(file("x"), facts, false).recipe.is_ok());
}
