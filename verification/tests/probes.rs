//! Trying names on a real directory, and what is left of it.

use rustix::fs::{
    Mode, OFlags, Timespec, Timestamps, UTIME_OMIT, futimens, ioctl_getflags, mkdir, open, stat,
};
use rustix::io::{self, Errno};
use std::path::Path;
use terra::error::Error;
use terra::host::HostOs;
use terra::ordered::TextMap;
use terra::sync::endpoint::{Endpoint, parse_endpoints};
use terra::sync::entry::{RootStatus, SyncDirection, SyncEntry, SyncEntryKind, SyncRules, Tree};
use terra::sync::lookups::list_lookups;
use terra::sync::names::{HostNames, ProbedName, PutResult, list_names, resolve_component};
use terra::sync::plan::{PlanAction, PlanOptions};
use terra::sync::probes::{
    CASEFOLD_FLAG, CaseRead, ProbeAction, ProbeEvent, Probes, judge_closing,
    verify_comparison_settings,
};
use terra::sync::run::{Run, RunEvent, RunStep};
use terra::sync::scan::Scan;
use terra::sync::transfer::{Download, DownloadEvent, SessionReply, TransferStep, plan_transfer};

fn rules(host: HostOs) -> SyncRules {
    SyncRules {
        host,
        max_file_bytes: 1 << 32,
        max_path_bytes: 4096,
        max_error_chars: 512,
        max_entries: 1000,
        max_metadata_bytes: 1 << 20,
    }
}

fn entry(path: &str, kind: SyncEntryKind, target: Option<&str>) -> SyncEntry {
    SyncEntry {
        relative_path: path.to_string(),
        kind,
        size: 0,
        mode: 0o644,
        mtime_secs: 1,
        mtime_nanos: 0,
        link_target: target.map(str::to_string),
        path_refusal: None,
    }
}

fn root() -> SyncEntry {
    entry("", SyncEntryKind::Directory, None)
}

fn directory(path: &str) -> SyncEntry {
    entry(path, SyncEntryKind::Directory, None)
}

fn file(path: &str) -> SyncEntry {
    entry(path, SyncEntryKind::File, None)
}

fn tree(entries: Vec<SyncEntry>) -> Tree {
    let mut tree = TextMap::new();
    for entry in entries {
        tree.insert(entry.relative_path.clone(), entry);
    }
    tree
}

fn text_in(path: &str) -> Result<String, Errno> {
    let file = open(path, OFlags::RDONLY, Mode::empty())?;
    let mut bytes = [0; 1024];
    let n = io::read(&file, &mut bytes)?;
    Ok(String::from_utf8(bytes[..n].to_vec()).unwrap())
}

fn write_new(path: &str, text: &str) -> Result<(), Errno> {
    let flags = OFlags::WRONLY | OFlags::CREATE | OFlags::EXCL;
    let file = open(path, flags, Mode::RUSR | Mode::WUSR)?;
    io::write(&file, text.as_bytes()).map(|_| ())
}

fn case_read(path: &str) -> CaseRead {
    let dir = open(path, OFlags::RDONLY, Mode::empty()).unwrap();
    match ioctl_getflags(&dir) {
        Ok(flags) => CaseRead::Flags(flags.bits()),
        Err(Errno::NOTTY | Errno::OPNOTSUPP | Errno::INVAL) => CaseRead::Unknown,
        Err(error) => CaseRead::Unread(error.to_string()),
    }
}

/// Does on a real disk what trying names asks for.
#[derive(Default)]
struct Disk {
    staged: Vec<tempfile::TempDir>,
    noted: Vec<(String, Timespec)>,
}

impl Disk {
    fn perform(&mut self, action: ProbeAction) -> ProbeEvent {
        let done = |result: Result<(), Errno>| match result {
            Ok(()) => ProbeEvent::Done,
            Err(error) => ProbeEvent::Failed(error.to_string()),
        };
        match action {
            ProbeAction::Inspect { path } => match Path::new(&path).symlink_metadata() {
                Ok(found) => ProbeEvent::Inspected { is_existing: true, is_dir: found.is_dir() },
                Err(_) => ProbeEvent::Inspected { is_existing: false, is_dir: false },
            },
            ProbeAction::FindDirectory { path } => {
                ProbeEvent::IsDirectory(Path::new(&path).is_dir())
            }
            ProbeAction::Open { path } => match stat(path.as_str()) {
                Ok(found) => {
                    let time = Timespec {
                        tv_sec: found.st_mtime as _,
                        tv_nsec: found.st_mtime_nsec as _,
                    };
                    self.noted.push((path, time));
                    ProbeEvent::Done
                }
                Err(error) => ProbeEvent::Failed(error.to_string()),
            },
            ProbeAction::Stage { parent } => {
                match tempfile::Builder::new().prefix(".terra-sync-names-").tempdir_in(parent) {
                    Ok(staged) => {
                        let path = staged.path().to_str().unwrap().to_string();
                        self.staged.push(staged);
                        ProbeEvent::Staged(path)
                    }
                    Err(error) => ProbeEvent::Failed(error.to_string()),
                }
            }
            ProbeAction::MakeDirectory { path } => done(mkdir(path.as_str(), Mode::RWXU)),
            ProbeAction::Compare { one, other } => {
                ProbeEvent::Compared(case_read(&one), case_read(&other))
            }
            ProbeAction::Put { path, name } => ProbeEvent::Put(match write_new(&path, &name) {
                Ok(()) => PutResult::Put,
                Err(Errno::EXIST) => PutResult::Taken(text_in(&path).unwrap()),
                Err(error) => PutResult::Failed(error.to_string()),
            }),
            ProbeAction::Remove { path } => {
                let staged = self.staged.pop().unwrap();
                assert_eq!(staged.path(), Path::new(&path));
                match staged.close() {
                    Ok(()) => ProbeEvent::Done,
                    Err(error) => ProbeEvent::Failed(error.to_string()),
                }
            }
            ProbeAction::Restore { path } => {
                let (noted, time) = self.noted.pop().unwrap();
                assert_eq!(noted, path);
                let kept = Timespec { tv_sec: 0, tv_nsec: UTIME_OMIT };
                let times = Timestamps { last_access: kept, last_modification: time };
                let dir = open(path.as_str(), OFlags::RDONLY, Mode::empty()).unwrap();
                done(futimens(&dir, &times))
            }
        }
    }

    fn drive(&mut self, mut probes: Probes) -> Probes {
        while let Some(action) = probes.next() {
            let event = self.perform(action);
            probes = probes.advance(event);
        }
        probes
    }
}

fn begin(root: &str, source: &Tree, destination: &Tree) -> Probes {
    let names = list_names(source, destination);
    Probes::start(root, &names, destination, Path::new(root).is_dir(), HostOs::Linux)
}

/// What the probes answer for some names of every directory.
fn look_up(probes: &Probes, directories: &[&str], names: &[String]) -> TextMap<TextMap<ProbedName>> {
    let mut answers = TextMap::new();
    for directory in directories {
        let mut inside = TextMap::new();
        for name in names {
            if let Some(path) = probes.lookup_path(directory, name) {
                match text_in(&path) {
                    Ok(found) => {
                        inside.insert(name.clone(), ProbedName::Named(found));
                    }
                    Err(Errno::NOENT) => {}
                    Err(error) => {
                        inside.insert(name.clone(), ProbedName::Unread(error.to_string()));
                    }
                }
            }
        }
        answers.insert(directory.to_string(), inside);
    }
    answers
}

/// Tries the names of two trees in a real directory, and sweeps up.
fn try_names(root: &str, source: &Tree, destination: &Tree) -> Result<HostNames, Error> {
    let mut disk = Disk::default();
    let probes = disk.drive(begin(root, source, destination));
    let mut names = list_lookups(source, destination);
    for tree in [source, destination] {
        for i in 0..tree.len() {
            names.push(tree.key_at(i).to_string());
        }
    }
    names.retain(|name| !name.is_empty() && !name.contains('/'));
    let answers = look_up(&probes, &[""], &names);
    let closed = disk.drive(probes.close());
    assert!(disk.staged.is_empty() && disk.noted.is_empty(), "something was left behind");
    closed.into_names(answers).unwrap()
}

#[test]
fn collision_checks_follow_the_actual_filesystem() {
    for (name, alias) in
        [("café", "cafe\u{301}"), ("ß", "ss"), ("ſ", "S"), ("Data", "data")]
    {
        let scratch = tempfile::tempdir().unwrap();
        let dir = scratch.path().to_str().unwrap();
        write_new(&format!("{dir}/{name}"), "keep").unwrap();
        let is_alias = scratch.path().join(alias).exists();
        let modified = scratch.path().metadata().unwrap().modified().unwrap();
        let source = tree(vec![file(alias)]);
        let destination = tree(vec![file(name)]);
        let result = try_names(dir, &source, &destination);
        assert_eq!(result.is_err(), is_alias, "{name}, {alias}");
        if let Ok(names) = result {
            assert_eq!(resolve_component(&names.answers, "", name).unwrap(), name);
            assert_eq!(resolve_component(&names.answers, "", alias).unwrap(), alias);
            names.closed.unwrap();
        }
        assert_eq!(text_in(&format!("{dir}/{name}")).unwrap(), "keep");
        assert_eq!(scratch.path().read_dir().unwrap().count(), 1);
        assert_eq!(scratch.path().metadata().unwrap().modified().unwrap(), modified);

        try_names(dir, &destination, &destination).unwrap().closed.unwrap();
        let combined = tree(vec![file(name), file(alias)]);
        let result = try_names(dir, &combined, &tree(Vec::new()));
        assert_eq!(result.is_err(), is_alias, "incoming collision: {name}, {alias}");
    }
}

#[test]
fn missing_directories_are_only_created_in_probes_and_drop_cleans_up() {
    let scratch = tempfile::tempdir().unwrap();
    let modified = scratch.path().metadata().unwrap().modified().unwrap();
    let source = tree(vec![directory("日本語"), file("日本語/café")]);
    let missing = scratch.path().join("missing/nested");
    let mut disk = Disk::default();
    let probes = disk.drive(begin(missing.to_str().unwrap(), &source, &tree(Vec::new())));
    assert!(probes.is_ready());
    let answers = look_up(&probes, &["日本語"], &["café".to_string()]);
    assert_eq!(
        resolve_component(&answers, "日本語", "café").unwrap(),
        "café"
    );
    assert!(!scratch.path().join("missing").exists());
    assert_eq!(scratch.path().read_dir().unwrap().count(), 1, "the probes lie in what is there");
    let closed = disk.drive(probes.close());
    closed.into_names(answers).unwrap().unwrap().closed.unwrap();
    assert_eq!(scratch.path().read_dir().unwrap().count(), 0);
    assert_eq!(scratch.path().metadata().unwrap().modified().unwrap(), modified);
}

#[test]
fn unrepresentable_names_fail_before_transfers_or_deletions() {
    let scratch = tempfile::tempdir().unwrap();
    let extra = tempfile::Builder::new()
        .prefix("extra")
        .rand_bytes(0)
        .tempfile_in(scratch.path())
        .unwrap();
    let dst = scratch.path().to_str().unwrap();
    let (from, _, direction) = parse_endpoints(":/source/", dst, HostOs::Linux).unwrap();
    assert_eq!(direction, SyncDirection::GuestToHost);
    let (src, src_trailing) = match from {
        Endpoint::Guest { path, has_trailing_separator } => (path, has_trailing_separator),
        other => panic!("{other:?}"),
    };
    let download = Download::start(&src, src_trailing, dst, false, true)
        .advance(DownloadEvent::Answered(SessionReply::Ready(RootStatus::ExistingDirectory)))
        .advance(DownloadEvent::Found(Some(true)));
    let status = match download.next() {
        TransferStep::Scan { root, status } => {
            assert_eq!(root, dst);
            status
        }
        other => panic!("{other:?}"),
    };

    let rules = rules(HostOs::Linux);
    let mut scan = Scan::of_guest(rules);
    for entry in [
        root(),
        entry("a", SyncEntryKind::File, None),
        entry(&"x".repeat(300), SyncEntryKind::File, None),
    ] {
        scan.take_guest_entry(entry).unwrap();
    }
    let source = scan.finish_guest().unwrap();
    let destination = tree(vec![root(), entry("extra", SyncEntryKind::File, None)]);
    let options = PlanOptions { direction, is_checksum: false, is_delete: true };
    let names = try_names(dst, &source, &destination);
    let error = plan_transfer(&source, &destination, status, options, &TextMap::new(), names, &rules)
        .unwrap_err();
    assert!(error.full_message().contains("cannot be created"), "{}", error.full_message());
    assert!(extra.path().exists());
    assert_eq!(scratch.path().read_dir().unwrap().count(), 1);

    // Without that name the same trees are copied and the rest removed.
    let source = tree(vec![root(), entry("a", SyncEntryKind::File, None)]);
    let names = try_names(dst, &source, &destination);
    let plan = plan_transfer(&source, &destination, status, options, &TextMap::new(), names, &rules)
        .unwrap();
    let run = Run::start(&plan, direction, rules, false);
    match run.next() {
        RunStep::Perform(PlanAction::TransferFile { rel_path, .. }) => assert_eq!(rel_path, "a"),
        other => panic!("{other:?}"),
    }
}

/// What a run does to a tree of files, directories with no bytes of their own.
fn run_on(
    plan: &Vec<PlanAction>,
    is_dry_run: bool,
    disk: &mut std::collections::BTreeMap<String, Option<Vec<u8>>>,
) -> (usize, usize) {
    let rules = rules(HostOs::Linux);
    let mut run = Run::start(plan, SyncDirection::GuestToHost, rules, is_dry_run);
    let mut steps = 0;
    loop {
        match run.next() {
            RunStep::Perform(PlanAction::CreateDir { rel_path, .. }) => {
                disk.insert(rel_path, None);
            }
            RunStep::Perform(PlanAction::TransferFile { rel_path, .. }) => {
                disk.insert(rel_path, Some(Vec::new()));
            }
            RunStep::Perform(PlanAction::RemoveEntry { rel_path, .. }) => {
                disk.remove(&rel_path);
            }
            RunStep::Perform(_) | RunStep::EndSession => {}
            RunStep::Nothing => break,
        }
        steps += 1;
        run.advance(RunEvent::Done);
    }
    let stats = run.into_result().unwrap().unwrap();
    (steps, stats.copied_count + stats.deleted_count)
}

#[test]
fn unicode_download_preserves_dry_run_contents_and_directory_timestamps() {
    let scratch = tempfile::tempdir().unwrap();
    let dir = scratch.path().join("destination");
    let text = dir.to_str().unwrap();
    let child = dir.join("日本語");
    mkdir(text, Mode::RWXU).unwrap();
    mkdir(child.to_str().unwrap(), Mode::RWXU).unwrap();
    write_new(&format!("{text}/extra"), "keep until successful transfer").unwrap();
    let root_modified = dir.metadata().unwrap().modified().unwrap();
    let child_modified = child.metadata().unwrap().modified().unwrap();

    let source = tree(vec![root(), directory("日本語"), file("日本語/café.txt")]);
    let destination = tree(vec![root(), directory("日本語"), file("extra")]);
    let options = PlanOptions {
        direction: SyncDirection::GuestToHost,
        is_checksum: false,
        is_delete: true,
    };
    let plan = plan_transfer(
        &source,
        &destination,
        RootStatus::ExistingDirectory,
        options,
        &TextMap::new(),
        try_names(text, &source, &destination),
        &rules(HostOs::Linux),
    )
    .unwrap();
    let mut disk = std::collections::BTreeMap::from([
        ("日本語".to_string(), None),
        ("extra".to_string(), Some(b"keep until successful transfer".to_vec())),
    ]);
    let before = disk.clone();
    assert_eq!(run_on(&plan, true, &mut disk), (0, 2), "only counted");
    assert_eq!(disk, before);
    assert_eq!(text_in(&format!("{text}/extra")).unwrap(), "keep until successful transfer");
    assert_eq!(dir.read_dir().unwrap().count(), 2);
    assert_eq!(child.read_dir().unwrap().count(), 0);
    assert_eq!(dir.metadata().unwrap().modified().unwrap(), root_modified);
    assert_eq!(child.metadata().unwrap().modified().unwrap(), child_modified);

    let (steps, changed) = run_on(&plan, false, &mut disk);
    assert!(steps > 2);
    assert_eq!(changed, 2);
    assert_eq!(disk["日本語/café.txt"].as_deref(), Some(b"".as_slice()));
    assert!(!disk.contains_key("extra"));
    assert_eq!(disk.len(), 2);
}

/// What is asked for next, in words.
fn asked(probes: &Probes) -> String {
    match probes.next() {
        None => "nothing".to_string(),
        Some(ProbeAction::Inspect { path }) => format!("inspect {path}"),
        Some(ProbeAction::FindDirectory { path }) => format!("find {path}"),
        Some(ProbeAction::Open { path }) => format!("open {path}"),
        Some(ProbeAction::Stage { parent }) => format!("stage in {parent}"),
        Some(ProbeAction::MakeDirectory { path }) => format!("mkdir {path}"),
        Some(ProbeAction::Compare { one, other }) => format!("compare {one} {other}"),
        Some(ProbeAction::Put { path, .. }) => format!("put {path}"),
        Some(ProbeAction::Remove { path }) => format!("remove {path}"),
        Some(ProbeAction::Restore { path }) => format!("restore {path}"),
    }
}

fn alike() -> ProbeEvent {
    ProbeEvent::Compared(CaseRead::Unknown, CaseRead::Unknown)
}

fn failed(why: &str) -> ProbeEvent {
    ProbeEvent::Failed(why.to_string())
}

/// Two probes, the second in the first, both with a name in them.
fn two_probes() -> Probes {
    let source = tree(vec![directory("d"), file("d/f")]);
    let names = list_names(&source, &tree(Vec::new()));
    let mut probes = Probes::start("/dst", &names, &tree(Vec::new()), true, HostOs::Linux);
    for (action, event) in [
        ("open /dst", ProbeEvent::Done),
        ("stage in /dst", ProbeEvent::Staged("/dst/p0".to_string())),
        ("mkdir /dst/p0/names", ProbeEvent::Done),
        ("compare /dst/p0 /dst/p0/names", alike()),
        ("compare /dst /dst/p0/names", alike()),
        ("put /dst/p0/names/d", ProbeEvent::Put(PutResult::Put)),
        ("inspect /dst", ProbeEvent::Inspected { is_existing: true, is_dir: true }),
        ("open /dst/p0", ProbeEvent::Done),
        ("stage in /dst/p0", ProbeEvent::Staged("/dst/p0/p1".to_string())),
        ("mkdir /dst/p0/p1/names", ProbeEvent::Done),
        ("compare /dst/p0/p1 /dst/p0/p1/names", alike()),
    ] {
        assert_eq!(asked(&probes), action);
        probes = probes.advance(event);
    }
    assert_eq!(asked(&probes), "put /dst/p0/p1/names/f");
    probes
}

/// Closes the probes, answering in order.
fn close_with(mut probes: Probes, events: Vec<ProbeEvent>) -> Result<HostNames, Error> {
    let order = ["remove /dst/p0/p1", "restore /dst/p0", "remove /dst/p0", "restore /dst"];
    assert_eq!(events.len(), order.len());
    for (action, event) in order.into_iter().zip(events) {
        assert_eq!(asked(&probes), action);
        probes = probes.advance(event);
    }
    assert_eq!(asked(&probes), "nothing");
    probes.into_names(TextMap::new()).unwrap()
}

#[test]
fn probes_are_closed_newest_first_and_the_last_trouble_is_told() {
    let ready = || two_probes().advance(ProbeEvent::Put(PutResult::Put)).close();
    let done = || ProbeEvent::Done;
    assert!(close_with(ready(), vec![done(), done(), done(), done()]).unwrap().closed.is_ok());

    let closed = |events| close_with(ready(), events).unwrap().closed.unwrap_err().full_message();
    assert_eq!(
        closed(vec![failed("busy"), failed("late"), done(), done()]),
        "removing sync name probes: busy",
        "that it was not removed goes first"
    );
    assert_eq!(
        closed(vec![failed("busy"), done(), done(), failed("late")]),
        "restoring directory timestamp after sync name probes: late"
    );
    assert_eq!(
        closed(vec![done(), failed("one"), failed("two"), done()]),
        "removing sync name probes: two"
    );
    assert!(judge_closing(None, None).is_ok());
    assert!(judge_closing(Some("a".to_string()), Some("b".to_string())).is_err());
}

#[test]
fn a_name_that_cannot_be_tried_leaves_nothing_behind() {
    for (came, told) in [
        (
            PutResult::Taken("F".to_string()),
            "checking sync names in 'd': sync names 'F' and 'f' identify the same destination \
             entry; rename one before syncing",
        ),
        (
            PutResult::Failed("too long".to_string()),
            "checking sync names in 'd': filename 'f' cannot be created on the destination \
             filesystem: too long",
        ),
        (
            PutResult::Unwritten("full".to_string()),
            "checking sync names in 'd': writing a sync name probe: full",
        ),
        (PutResult::Unread("denied".to_string()), "checking sync names in 'd': denied"),
    ] {
        let probes = two_probes().advance(ProbeEvent::Put(came));
        assert!(!probes.is_ready());
        let events = vec![failed("busy"), ProbeEvent::Done, ProbeEvent::Done, failed("late")];
        assert_eq!(close_with(probes, events).unwrap_err().full_message(), told);
    }
}

#[test]
fn a_probe_that_cannot_be_made_is_told_of() {
    let source = tree(vec![file("f")]);
    let names = list_names(&source, &tree(Vec::new()));
    let start = |is_dir, os| Probes::start("/a/dst", &names, &tree(Vec::new()), is_dir, os);
    let told = |probes: Probes| {
        assert_eq!(asked(&probes), "nothing");
        probes.into_names(TextMap::new()).unwrap().unwrap_err().full_message()
    };
    let opened = || start(true, HostOs::Linux).advance(ProbeEvent::Done);
    assert_eq!(told(start(true, HostOs::Linux).advance(failed("gone"))), "gone");
    assert_eq!(
        told(opened().advance(failed("denied"))),
        "creating sync name probes in /a/dst; the directory must be writable, including for dry \
         runs: denied"
    );
    let staged = || opened().advance(ProbeEvent::Staged("/a/dst/p".to_string()));
    let swept = |mut probes: Probes| {
        for action in ["remove /a/dst/p", "restore /a/dst"] {
            assert_eq!(asked(&probes), action);
            probes = probes.advance(ProbeEvent::Done);
        }
        told(probes)
    };
    assert_eq!(swept(staged().advance(failed("full"))), "full");
    let made = || staged().advance(ProbeEvent::Done);
    let differs = || ProbeEvent::Compared(CaseRead::Flags(CASEFOLD_FLAG), CaseRead::Flags(0));
    let inherits = "destination directory does not inherit its filename comparison settings; sync \
                    into a directory with inherited settings";
    assert_eq!(swept(made().advance(differs())), inherits);
    assert_eq!(swept(made().advance(alike()).advance(differs())), inherits);
    let unread = ProbeEvent::Compared(CaseRead::Unread("io".to_string()), CaseRead::Unknown);
    assert_eq!(swept(made().advance(unread)), "reading directory case-folding settings: io");

    // Where no such settings can be read, names are tried at once.
    let macos = start(true, HostOs::MacOs)
        .advance(ProbeEvent::Done)
        .advance(ProbeEvent::Staged("/a/dst/p".to_string()))
        .advance(ProbeEvent::Done);
    assert_eq!(asked(&macos), "put /a/dst/p/names/f");

    let absent = start(false, HostOs::Linux);
    assert_eq!(asked(&absent), "find /a/dst");
    let above = absent.advance(ProbeEvent::IsDirectory(false));
    assert_eq!(asked(&above), "find /a");
    let root = above.advance(ProbeEvent::IsDirectory(false));
    assert_eq!(asked(&root), "find /");
    assert_eq!(
        told(root.advance(ProbeEvent::IsDirectory(false))),
        "sync destination has no existing parent directory"
    );
    let relative = Probes::start("dst", &names, &tree(Vec::new()), false, HostOs::Linux)
        .advance(ProbeEvent::IsDirectory(false));
    assert_eq!(asked(&relative), "find .");
    assert_eq!(asked(&relative.advance(ProbeEvent::IsDirectory(true))), "open .");
}

#[test]
fn a_directory_is_only_tried_where_nothing_is_in_its_way() {
    let source = tree(vec![file("d/f")]);
    let names = list_names(&source, &tree(Vec::new()));
    let start = || Probes::start("/dst", &names, &tree(Vec::new()), true, HostOs::Linux);
    assert_eq!(asked(&start()), "inspect /dst");
    let told = |event| {
        start().advance(event).into_names(TextMap::new()).unwrap().unwrap_err().full_message()
    };
    assert_eq!(
        told(ProbeEvent::Inspected { is_existing: true, is_dir: false }),
        "sync parent must be a directory: /dst"
    );
    assert_eq!(told(failed("denied")), "inspecting /dst: denied");
}

#[test]
fn only_the_case_flag_counts_on_linux() {
    let flags = |one, other, os| {
        verify_comparison_settings(CaseRead::Flags(one), CaseRead::Flags(other), os).is_ok()
    };
    assert!(flags(0x8_0000, 0, HostOs::Linux));
    assert!(!flags(CASEFOLD_FLAG, 0, HostOs::Linux));
    assert!(!flags(1, 0, HostOs::Windows));
    assert!(
        verify_comparison_settings(CaseRead::Unknown, CaseRead::Flags(0), HostOs::Linux).is_err()
    );
    let unread = || CaseRead::Unread("io".to_string());
    let error = verify_comparison_settings(CaseRead::Unknown, unread(), HostOs::Windows);
    assert_eq!(
        error.unwrap_err().full_message(),
        "reading directory case-sensitivity settings: io"
    );
}
