//! Synchronising a tree: endpoints, names, links, and what a plan does.

use std::path::Path;
use terra::error::Error;
use terra::host::HostOs;
use terra::ordered::TextMap;
use terra::sync::digest::{
    DigestEvent, DigestPair, HashEvent, HashStep, Hashing, check_hashed, check_hashing,
    choose_host_file, is_same_content, pair_digests, take_digest,
};
use terra::sync::endpoint::{
    DestinationPlacement, Endpoint, SourcePlacement, parse_endpoint, parse_endpoints,
    resolve_placement,
};
use terra::sync::entry::{RootStatus, SyncDirection, SyncEntry, SyncEntryKind, SyncRules, Tree};
use terra::sync::exec::{
    FileFacts, FileTransfer, check_directory_to_make, check_guest_source, check_host_source,
    check_metadata_update, check_still_source, dry_run_report,
    format_dry_run_line, planned_stats, report_result, schedule,
};
use terra::sync::file_copy::{CopyEvent, CopyStep, FileDownload, FileUpload};
use terra::sync::links::{
    LinkTargets, MAX_SYNC_LINK_WORK_BYTES, spend_link_work, validate_download_links,
    validate_download_symlink_target, validate_link_resolutions,
};
use terra::sync::lookups::list_lookups;
use terra::sync::names::{
    HostNames, ProbePlace, ProbeStep, ProbedName, PutResult, check_put, list_names, plan_probes,
    resolve_component,
};
use terra::sync::plan::{PlanAction, PlanOptions, build_plan, files_to_compare, validate_plan_conflicts};
use terra::sync::run::{Run, RunEvent, RunStep};
use terra::sync::scan::{
    HostFacts, HostKind, ReportEvent, Scan, check_sync_parent, list_host_path_steps, name_child,
    single_host_entry_map,
};
use terra::sync::security::{
    macos_manifest_lookup_key, manifest_lookup_key, sanitize_guest_error_message, to_safe_mode,
    validate_case_aliases, validate_windows_name,
};
use terra::sync::session::escape_error;
use terra::sync::transfer::{
    Download, DownloadEvent, SessionReply, TransferStep, Upload, plan_transfer,
};

fn rules(host: HostOs) -> SyncRules {
    SyncRules {
        host,
        max_file_bytes: 1 << 32,
        max_path_bytes: 4096,
        max_error_chars: 512,
        max_entries: 1000,
        max_metadata_bytes: 1 << 20,
    }
}

fn entry(path: &str, kind: SyncEntryKind, target: Option<&str>) -> SyncEntry {
    SyncEntry {
        relative_path: path.to_string(),
        kind,
        size: 0,
        mode: 0o644,
        mtime_secs: 1,
        mtime_nanos: 0,
        link_target: target.map(str::to_string),
        path_refusal: None,
    }
}

fn tree(entries: Vec<SyncEntry>) -> Tree {
    let mut tree = TextMap::new();
    for entry in entries {
        tree.insert(entry.relative_path.clone(), entry);
    }
    tree
}

fn link(path: &str, target: &str) -> SyncEntry {
    entry(path, SyncEntryKind::Symlink, Some(target))
}

#[test]
fn parse_endpoint_identifies_guest_and_host() {
    let host = HostOs::Linux;
    assert_eq!(
        parse_endpoint("box:/app/out", host).unwrap(),
        Endpoint::Guest { path: "/app/out".to_string(), has_trailing_separator: false }
    );
    assert_eq!(
        parse_endpoint(":/app/out/", host).unwrap(),
        Endpoint::Guest { path: "/app/out".to_string(), has_trailing_separator: true }
    );
    match parse_endpoint("./local/path/", host).unwrap() {
        Endpoint::Host { path, has_trailing_separator } => {
            assert_eq!(Path::new(&path), Path::new("./local/path/"));
            assert!(has_trailing_separator);
        }
        other => panic!("{other:?}"),
    }
}

#[test]
fn relative_guest_path_is_rejected() {
    let host = HostOs::Linux;
    assert!(parse_endpoint("box:relative/path", host).is_err());
    assert!(parse_endpoint(":relative/path", host).is_err());
    for invalid in ["box://", "://", "box:////", ":////"] {
        assert!(
            parse_endpoint(invalid, host)
                .unwrap_err()
                .message()
                .contains("guest path is empty")
        );
    }
    for root in ["box:/", ":/"] {
        assert_eq!(
            parse_endpoint(root, host).unwrap(),
            Endpoint::Guest { path: "/".into(), has_trailing_separator: true }
        );
    }
}

#[test]
fn named_box_prefix_suggests_cli_spelling() {
    let err = parse_endpoint("dev:/app", HostOs::Linux).unwrap_err().message();
    assert!(err.contains("terra dev sync"), "{err}");
}

#[test]
fn exactly_one_guest_endpoint_required() {
    let host = HostOs::Linux;
    assert!(parse_endpoints("box:/a", "box:/b", host).is_err());
    assert!(parse_endpoints("./a", "./b", host).is_err());
    assert!(parse_endpoints("./a", "box:/b", host).is_ok());
    assert!(parse_endpoints(":/a", "./b", host).is_ok());
}

#[test]
fn placement_table_all_rows() {
    fn check(
        is_src_dir: bool,
        src_has_trailing: bool,
        src_name: &str,
        dst_path: &str,
        dst_has_trailing: bool,
        dst_is_existing_dir: bool,
    ) -> String {
        resolve_placement(
            SourcePlacement {
                name: src_name,
                is_dir: is_src_dir,
                has_trailing: src_has_trailing || src_name.is_empty(),
            },
            DestinationPlacement {
                path: dst_path,
                is_existing_dir: dst_is_existing_dir,
                has_trailing: dst_has_trailing,
            },
        )
    }

    assert_eq!(check(false, false, "a", "dest", true, true), "dest/a");
    assert_eq!(check(false, false, "a", "dest", false, true), "dest/a");
    assert_eq!(check(false, false, "a", "dest", false, false), "dest");
    assert_eq!(check(true, true, "src", "dest", false, true), "dest");
    assert_eq!(check(true, true, "src", "dest", false, false), "dest");
    assert_eq!(check(true, false, "src", "dest", false, true), "dest/src");
    assert_eq!(check(true, false, "src", "dest", false, false), "dest");
}

#[test]
fn macos_lookup_keys_match_canonical_unicode_variants() {
    for (composed, decomposed) in [("CAFÉ", "cafe\u{301}"), ("각", "\u{1100}\u{1161}\u{11a8}")] {
        assert_eq!(macos_manifest_lookup_key(composed), macos_manifest_lookup_key(decomposed));
    }
    assert_eq!(manifest_lookup_key(HostOs::Linux, "CAFÉ"), "CAFÉ");
    assert_eq!(manifest_lookup_key(HostOs::Windows, "ÀB"), "àb");
}

#[test]
fn downloaded_links_cannot_escape_through_unicode_aliases() {
    let mac = rules(HostOs::MacOs);
    for (name, alias) in [("café", "cafe\u{301}"), ("cafe\u{301}", "café")] {
        let destination = tree(vec![link(name, "/outside")]);
        let source = tree(vec![link("link", alias)]);
        assert!(validate_download_links(&source, &destination, &TextMap::new(), &mac).is_err());
        let source = tree(vec![entry(alias, SyncEntryKind::File, None)]);
        assert!(validate_case_aliases(HostOs::MacOs, &source, &destination).is_err());
        assert!(validate_case_aliases(HostOs::Linux, &source, &destination).is_ok());
    }
}

#[test]
fn symlink_chains_cannot_escape_through_dot_dot() {
    let linux = rules(HostOs::Linux);
    let none = tree(Vec::new());
    let source = tree(vec![link("a", "."), link("b", "a/..")]);
    assert!(validate_download_links(&source, &none, &TextMap::new(), &linux).is_err());
    let source = tree(vec![link("a", "."), link("b", "a/safe")]);
    assert!(validate_download_links(&source, &none, &TextMap::new(), &linux).is_ok());
    let destination = tree(vec![link("outside", "/tmp")]);
    let source = tree(vec![link("a", "."), link("b", "outside/file")]);
    assert!(validate_download_links(&source, &destination, &TextMap::new(), &linux).is_err());
}

#[test]
fn link_validation_checks_old_and_new_symlink_targets() {
    let linux = rules(HostOs::Linux);
    let source = tree(vec![link("a", "d/up/../../x"), link("d/up", "safe")]);
    let destination = tree(vec![link("d/up", "..")]);
    assert!(validate_download_links(&source, &tree(Vec::new()), &TextMap::new(), &linux).is_ok());
    assert!(validate_download_links(&source, &destination, &TextMap::new(), &linux).is_err());
}

#[test]
fn link_resolution_budget_is_shared_across_source_links() {
    let linux = rules(HostOs::Linux);
    let mut links = TextMap::new();
    links.insert(
        "alias".to_string(),
        LinkTargets { incoming: Some(".".to_string()), existing: Some("subdir".to_string()) },
    );
    let walked = |path: &str, remaining: &mut usize| {
        validate_link_resolutions(path, "alias/file", &links, &TextMap::new(), remaining, &linux)
    };
    let mut remaining = MAX_SYNC_LINK_WORK_BYTES;
    walked("a", &mut remaining).unwrap();
    let used = MAX_SYNC_LINK_WORK_BYTES - remaining;
    remaining = 2 * used - 1;
    walked("a", &mut remaining).unwrap();
    let error =
        walked("b", &mut remaining).unwrap_err();
    assert!(error.message().contains("work limit"), "{}", error.full_message());
}

#[test]
fn link_work_is_spent_exactly() {
    let mut remaining = 10;
    assert!(spend_link_work(&mut remaining, 10).is_ok());
    assert_eq!(remaining, 0);
    assert!(spend_link_work(&mut remaining, 1).is_err());
}

#[test]
fn windows_names_cannot_alias_devices_or_streams() {
    for name in ["NUL", "con.txt", "COM1", "a:stream", "a\\b", "trailing.", "trailing "] {
        assert!(validate_windows_name(name).is_err(), "{name}");
    }
    assert!(validate_windows_name("normal.txt").is_ok());
}

#[test]
fn symlink_escaping_destination_root_is_rejected() {
    let linux = rules(HostOs::Linux);
    assert!(validate_download_symlink_target("sub/link", "../../etc/passwd", &linux).is_err());
    assert!(validate_download_symlink_target("sub/link", "../foo", &linux).is_ok());
    assert!(validate_download_symlink_target("link", "../outside", &linux).is_err());
    assert!(validate_download_symlink_target("link", "/etc/passwd", &linux).is_err());
}

#[test]
fn guest_error_cannot_drive_terminal() {
    let plain = "No such file or directory (os error 2)";
    assert_eq!(sanitize_guest_error_message(plain, 512), plain);

    for raw in ["\x1b]0;pwned\x07", "\x1b[2J\x1b[H", "a\rterra: copied ok"] {
        let out = sanitize_guest_error_message(raw, 512);
        assert!(!out.contains('\x1b'));
        assert!(!out.contains('\r'));
        assert!(!out.contains('\x07'));
    }
}

#[test]
fn guest_cannot_hand_out_setuid_or_group_write_on_host() {
    assert_eq!(to_safe_mode(0o755), 0o755);
    assert_eq!(to_safe_mode(0o600), 0o600);
    assert_eq!(to_safe_mode(0o4755), 0o755);
    assert_eq!(to_safe_mode(0o2755), 0o755);
    assert_eq!(to_safe_mode(0o1777), 0o755);
    assert_eq!(to_safe_mode(0o666), 0o644);
    assert_eq!(to_safe_mode(u32::MAX), 0o755);
}

fn options(is_delete: bool, is_checksum: bool) -> PlanOptions {
    PlanOptions { is_checksum, is_delete, direction: SyncDirection::HostToGuest }
}

/// The names of a destination that holds every one of them as it is.
fn tried() -> Result<HostNames, Error> {
    Ok(HostNames { answers: TextMap::new(), closed: Ok(()) })
}

fn plan(source: &Tree, target: &Tree, is_delete: bool) -> Vec<PlanAction> {
    build_plan(source, target, options(is_delete, false), &TextMap::new(), tried(), &rules(HostOs::Linux))
        .unwrap()
}

fn root() -> SyncEntry {
    SyncEntry { mode: 0o755, ..entry("", SyncEntryKind::Directory, None) }
}

#[test]
fn plan_detects_conflicts_between_directories_and_files() {
    let linux = rules(HostOs::Linux);
    let of = |kind, size, mode| {
        tree(vec![SyncEntry { size, mode, mtime_secs: 100, ..entry("conflict", kind, None) }])
    };
    let source = of(SyncEntryKind::Directory, 0, 0o755);
    let target = of(SyncEntryKind::File, 10, 0o644);
    let refused = |source: &Tree, target: &Tree| {
        build_plan(source, target, options(false, false), &TextMap::new(), tried(), &linux)
            .unwrap_err()
            .message()
    };
    let err = refused(&source, &target);
    assert!(err.contains("cannot overwrite file"), "{err}");
    let err = refused(&target, &source);
    assert!(err.contains("cannot overwrite directory"), "{err}");
    assert!(build_plan(&target, &target, options(false, false), &TextMap::new(), tried(), &linux).is_ok());
}

#[test]
fn plan_deletions_gated_by_delete_flag() {
    let source = tree(Vec::new());
    let target = tree(vec![SyncEntry {
        size: 10,
        mtime_secs: 100,
        ..entry("extra.txt", SyncEntryKind::File, None)
    }]);
    assert_eq!(
        plan(&source, &target, false),
        vec![PlanAction::Skip { rel_path: "extra.txt".to_string() }]
    );
    assert_eq!(
        plan(&source, &target, true),
        vec![PlanAction::RemoveEntry { rel_path: "extra.txt".to_string(), is_dir: false }]
    );
}

#[test]
fn plan_skips_when_metadata_matches_and_updates_when_it_differs() {
    let file = |mode, mtime_secs, size| {
        tree(vec![SyncEntry {
            mode,
            mtime_secs,
            size,
            ..entry("file.txt", SyncEntryKind::File, None)
        }])
    };
    let rel_path = || "file.txt".to_string();
    let source = file(0o644, 100, 42);
    assert_eq!(
        plan(&source, &file(0o644, 100, 42), false),
        vec![PlanAction::Skip { rel_path: rel_path() }]
    );
    assert_eq!(
        plan(&source, &file(0o755, 100, 42), false),
        vec![PlanAction::UpdateFileMetadata {
            rel_path: rel_path(),
            mode: 0o644,
            mtime_secs: 100,
            mtime_nanos: 0,
        }]
    );
    for target in [file(0o644, 200, 42), file(0o644, 100, 41)] {
        assert_eq!(
            plan(&source, &target, false),
            vec![PlanAction::TransferFile {
                rel_path: rel_path(),
                size: 42,
                mode: 0o644,
                mtime_secs: 100,
                mtime_nanos: 0,
            }]
        );
    }
}

#[test]
fn checksums_are_asked_of_files_of_one_size() {
    let file = |size| SyncEntry { size, ..entry("f", SyncEntryKind::File, None) };
    let same = tree(vec![root(), file(3)]);
    let other = tree(vec![root(), file(4)]);
    assert_eq!(files_to_compare(&same, &same, options(false, true)), vec!["f".to_string()]);
    assert!(files_to_compare(&same, &other, options(false, true)).is_empty());
    assert!(files_to_compare(&same, &same, options(false, false)).is_empty());
}

#[test]
fn a_run_creates_before_it_transfers_and_removes_before_it_restores() {
    let source = tree(vec![
        root(),
        entry("d", SyncEntryKind::Directory, None),
        SyncEntry { size: 3, ..entry("d/f", SyncEntryKind::File, None) },
        link("l", "d/f"),
    ]);
    let target = tree(vec![root(), entry("old", SyncEntryKind::File, None)]);
    let actions = plan(&source, &target, true);
    let steps = schedule(&actions);
    let at = |wanted: &str| {
        steps
            .iter()
            .position(|step| {
                terra::sync::exec::rel_path_of(step) == wanted
                    && !matches!(step, PlanAction::UpdateDirMetadata { .. })
            })
            .unwrap()
    };
    assert!(at("d") < at("d/f"));
    assert!(at("d/f") < at("old"));
    let last = steps.len() - 1;
    assert!(matches!(steps[last], PlanAction::UpdateDirMetadata { .. }));
    let stats = planned_stats(&actions);
    assert_eq!(stats.transferred_bytes, 3);
    assert_eq!(stats.deleted_count, 1);
    assert_eq!(dry_run_report(&steps).len(), {
        steps
            .iter()
            .filter(|step| !matches!(step, PlanAction::Skip { .. }))
            .count()
    });
}

#[test]
fn sync_reports_are_one_line() {
    let line = format_dry_run_line(&PlanAction::RemoveEntry {
        rel_path: "old\x1b".to_string(),
        is_dir: false,
    });
    assert!(!line.contains('\x1b'), "{line:?}");
    let stats = planned_stats(&Vec::new());
    let line = report_result("a", "box:/b", &stats, false, false);
    assert!(line.contains("a") && line.contains("box:/b"), "{line}");
}

/// Fetches a file as a caller does, from a box that announces it, sends some
/// bytes and then says how it went; onto a disk of that file.
fn fetch_one(
    planned: FileFacts,
    announced: FileFacts,
    body: &[u8],
    answer: Option<&str>,
    file: &mut Option<Vec<u8>>,
) -> RunEvent {
    let mut fetch = FileDownload::start("file", "/dst/file", planned, 10);
    let mut staged: Option<Vec<u8>> = None;
    let mut at = 0;
    loop {
        let event = match fetch.next() {
            CopyStep::RequestRead { rel_path } => {
                assert_eq!(rel_path, "file");
                CopyEvent::Done
            }
            CopyStep::AwaitReady => CopyEvent::Announced(announced),
            CopyStep::Stage(path) => {
                assert_eq!(path, "/dst/file");
                staged = Some(Vec::new());
                CopyEvent::Done
            }
            CopyStep::Receive(most) => {
                let n = most.min(2).min(body.len() - at);
                at += n;
                CopyEvent::Chunk(body[at - n..at].to_vec())
            }
            CopyStep::Append(bytes) => {
                staged.as_mut().unwrap().extend(bytes);
                CopyEvent::Done
            }
            CopyStep::SetMode(mode) => {
                assert_eq!(mode, 0o644);
                CopyEvent::Done
            }
            CopyStep::SetTimes { secs, nanos } => {
                assert_eq!((secs, nanos), (100, 0));
                CopyEvent::Done
            }
            CopyStep::AwaitSuccess => match answer {
                Some("Success") => CopyEvent::Done,
                Some(other) => CopyEvent::Other(other.to_string()),
                None => CopyEvent::Failed(Error::new("end of stream".to_string())),
            },
            CopyStep::Install(_) => {
                *file = staged.take();
                CopyEvent::Done
            }
            CopyStep::Discard => {
                staged = None;
                CopyEvent::Done
            }
            CopyStep::Nothing => break,
            _ => CopyEvent::Done,
        };
        fetch = fetch.advance(event);
    }
    assert!(staged.is_none(), "nothing is left beside the file");
    fetch.into_event().unwrap()
}

#[test]
fn download_requires_the_planned_metadata_and_completion_reply() {
    let planned = FileFacts { size: 3, mode: 0o644, mtime_secs: 100, mtime_nanos: 0 };
    assert!(check_guest_source(planned, planned, 10).is_ok());
    for changed in [
        FileFacts { size: 4, ..planned },
        FileFacts { mode: 0o600, ..planned },
        FileFacts { mtime_secs: 101, ..planned },
        FileFacts { mtime_nanos: 1, ..planned },
    ] {
        assert!(check_guest_source(changed, planned, 10).is_err(), "{changed:?}");
    }
    assert!(check_guest_source(planned, planned, 2).is_err());
    assert!(check_host_source("/a", true, planned, planned, 10).is_ok());
    assert!(check_host_source("/a", false, planned, planned, 10).is_err());

    let mut file = Some(b"old".to_vec());
    for size in [3, 4] {
        let announced = FileFacts { size, ..planned };
        let event = fetch_one(planned, announced, b"new", None, &mut file);
        assert!(matches!(event, RunEvent::Failed(_)));
        assert_eq!(file.as_deref(), Some(b"old".as_slice()));
    }
    let event = fetch_one(planned, planned, b"new", Some("Entry"), &mut file);
    assert!(matches!(&event, RunEvent::Unconfirmed(got) if got == "Entry"));
    assert_eq!(file.as_deref(), Some(b"old".as_slice()));

    // The file that came whole is still no copy until the box has confirmed it.
    let action = PlanAction::TransferFile {
        rel_path: "file".to_string(),
        size: 3,
        mode: 0o644,
        mtime_secs: 100,
        mtime_nanos: 0,
    };
    let mut run = Run::start(&vec![action], SyncDirection::GuestToHost, rules(HostOs::Linux), false);
    run.advance(event);
    assert_eq!(performed(&run), "nothing");
    assert_eq!(
        run.into_result().unwrap().unwrap_err().message(),
        "guest did not confirm completed file transfer"
    );

    let event = fetch_one(planned, planned, b"new", Some("Success"), &mut file);
    assert!(matches!(event, RunEvent::Done));
    assert_eq!(file.as_deref(), Some(b"new".as_slice()));
}

#[test]
fn a_file_is_sent_whole_or_not_at_all() {
    let planned = FileFacts { size: 5, mode: 0o644, mtime_secs: 100, mtime_nanos: 0 };
    let send = |found: FileFacts, body: &[u8], after: (u64, bool), answer: Option<&str>| {
        let mut upload = FileUpload::start("/src/f", "f", true, found, planned, 10);
        let mut wire = Vec::new();
        let mut at = 0;
        let mut is_interrupted = true;
        let mut is_committed = false;
        loop {
            let event = match upload.next() {
                CopyStep::RequestWrite { rel_path, facts } => {
                    assert_eq!((rel_path.as_str(), facts), ("f", planned));
                    CopyEvent::Done
                }
                CopyStep::Open(path) => {
                    assert_eq!(path, "/src/f");
                    CopyEvent::Done
                }
                CopyStep::Read(_) if is_interrupted => {
                    is_interrupted = false;
                    CopyEvent::Interrupted
                }
                CopyStep::Read(most) => {
                    let n = most.min(2).min(body.len() - at);
                    at += n;
                    CopyEvent::Chunk(body[at - n..at].to_vec())
                }
                CopyStep::Send(bytes) => {
                    wire.extend(bytes);
                    CopyEvent::Done
                }
                CopyStep::Measure => {
                    CopyEvent::Measured { size_after: after.0, is_same_time: after.1 }
                }
                CopyStep::Commit => {
                    is_committed = true;
                    CopyEvent::Done
                }
                CopyStep::AwaitSuccess => match answer {
                    None => CopyEvent::Done,
                    Some(other) => CopyEvent::Other(other.to_string()),
                },
                CopyStep::Nothing => break,
                _ => CopyEvent::Done,
            };
            upload = upload.advance(event);
        }
        let end = match upload.into_event().unwrap() {
            RunEvent::Done => "done".to_string(),
            RunEvent::NotReady(got) => format!("not ready: {got}"),
            RunEvent::Unconfirmed(got) => format!("unconfirmed: {got}"),
            RunEvent::Failed(error) => error.full_message(),
        };
        (end, wire, is_committed)
    };
    let (end, wire, is_committed) = send(planned, b"12345", (5, true), None);
    assert_eq!((end.as_str(), wire.as_slice(), is_committed), ("done", b"12345".as_slice(), true));
    let (end, _, is_committed) = send(planned, b"1234", (4, true), None);
    assert_eq!(end, "/src/f shrank while being transferred (read 4 of 5 bytes)");
    assert!(!is_committed);
    let (end, _, is_committed) = send(planned, b"12345", (5, false), None);
    assert_eq!(end, "source changed while transferring; retry with a quiet source");
    assert!(!is_committed);
    let (end, _, _) = send(planned, b"12345", (5, true), Some("Entry"));
    assert_eq!(end, "unconfirmed: Entry");
    let (end, wire, _) = send(FileFacts { size: 6, ..planned }, b"123456", (6, true), None);
    assert_eq!(end, "host source changed since planning");
    assert!(wire.is_empty());

    let reading = || {
        FileUpload::start("/src/f", "f", true, planned, planned, 10)
            .advance(CopyEvent::Done)
            .advance(CopyEvent::Done)
            .advance(CopyEvent::Done)
    };
    match reading().advance(CopyEvent::Late).into_event().unwrap() {
        RunEvent::Failed(error) => {
            assert_eq!(error.message(), "file transfer ran past data transfer limit");
        }
        other => panic!("{other:?}"),
    }
    let gone = || Error::new("gone".to_string());
    match reading().advance(CopyEvent::Failed(gone())).into_event().unwrap() {
        RunEvent::Failed(error) => assert_eq!(error.full_message(), "reading /src/f: gone"),
        other => panic!("{other:?}"),
    }
    let unready = FileUpload::start("/src/f", "f", true, planned, planned, 10)
        .advance(CopyEvent::Done)
        .advance(CopyEvent::Other("Success".to_string()));
    assert!(matches!(unready.into_event(), Some(RunEvent::NotReady(got)) if got == "Success"));
}

#[test]
fn download_metadata_does_not_modify_hard_links_outside_the_tree() {
    let error = check_metadata_update("/destination/file", false, true, 2).unwrap_err().message();
    assert!(error.contains("hard-linked"), "{error}");
    assert!(check_metadata_update("/destination/file", false, true, 1).is_ok());
    assert!(check_metadata_update("/destination", false, false, 2).is_ok(), "a directory");
    assert!(check_metadata_update("/destination/link", true, false, 1).is_err());
}

#[test]
fn interrupted_download_preserves_destination_and_suppresses_deletion() {
    let actions = vec![
        PlanAction::TransferFile {
            rel_path: "file".to_string(),
            size: 5,
            mode: 0o644,
            mtime_secs: 100,
            mtime_nanos: 0,
        },
        PlanAction::RemoveEntry { rel_path: "extra".to_string(), is_dir: false },
    ];
    let mut run = Run::start(&actions, SyncDirection::GuestToHost, rules(HostOs::Linux), false);
    assert_eq!(performed(&run), "copy file");
    let mut transfer = FileTransfer::new(5);
    assert_eq!(transfer.want(1024), 5);
    assert!(transfer.received(3, "file").is_ok());
    assert!(!transfer.is_complete());
    assert!(transfer.received(0, "file").is_err());

    let mut file = Some(b"old".to_vec());
    let facts = FileFacts { size: 5, mode: 0o644, mtime_secs: 100, mtime_nanos: 0 };
    let event = fetch_one(facts, facts, b"bad", None, &mut file);
    assert_eq!(file.as_deref(), Some(b"old".as_slice()));
    run.advance(event);
    assert_eq!(performed(&run), "nothing");
    assert_eq!(
        run.into_result().unwrap().unwrap_err().message(),
        "transfer of file ended after 3 of 5 promised bytes"
    );

    let mut whole = FileTransfer::new(8);
    assert!(whole.sent(8, "f").is_ok());
    assert!(whole.is_complete());
}

#[test]
fn malformed_guest_trees_are_rejected_before_planning() {
    let linux = rules(HostOs::Linux);
    let source = tree(vec![link("a", "."), entry("a/escape", SyncEntryKind::File, None)]);
    assert!(validate_plan_conflicts(&source, &tree(Vec::new()), &linux).is_err());

    let mut scan = Scan::of_guest(linux);
    scan.take_guest_entry(entry("a", SyncEntryKind::File, None)).unwrap();
    let error = scan.take_guest_entry(entry("a", SyncEntryKind::File, None)).unwrap_err();
    assert!(error.message().contains("duplicate"), "{}", error.message());

    let mut scan = Scan::of_guest(linux);
    scan.take_guest_entry(root()).unwrap();
    let escaping = SyncEntry {
        path_refusal: Some("path escapes".to_string()),
        ..entry("../x", SyncEntryKind::File, None)
    };
    let error = scan.take_guest_entry(escaping).unwrap_err().message();
    assert_eq!(error, "invalid guest path: path escapes");

    let mut scan = Scan::of_guest(linux);
    scan.take_guest_entry(root()).unwrap();
    scan.take_guest_entry(entry("missing/child", SyncEntryKind::File, None)).unwrap();
    assert!(scan.finish_guest().is_err(), "a child without its directory");
}

#[test]
fn a_host_scan_names_what_it_found() {
    let linux = rules(HostOs::Linux);
    let facts = |kind, link_target: Option<&str>| HostFacts {
        kind,
        len: 3,
        mode: 0o100_644,
        readonly: false,
        mtime_secs: 7,
        mtime_nanos: 8,
        link_target: link_target.map(str::to_string),
    };
    let single = single_host_entry_map("/p/f", facts(HostKind::File, None), &linux).unwrap();
    assert_eq!(single.len(), 1);
    let found = single.get("").unwrap();
    assert_eq!((found.size, found.mode, found.mtime_secs, found.mtime_nanos), (3, 0o644, 7, 8));
    assert!(single_host_entry_map("/p/fifo", facts(HostKind::Special, None), &linux).is_err());
}

#[test]
fn host_operations_refuse_existing_symlink_ancestors() {
    // In the root there is a link, which is no directory.
    let check = |relative: &str| -> Result<(), Error> {
        let mut steps = list_host_path_steps("/root", relative);
        steps.pop();
        for path in &steps {
            check_sync_parent(path, path == "/root" || path == "/root/link", path == "/root")?;
        }
        Ok(())
    };
    let error = check("link/file").unwrap_err().message();
    assert_eq!(error, "sync parent must be a directory: /root/link");
    assert!(check("link").is_ok());
    assert!(check("new/file").is_ok(), "what is not there yet can be made");
}

#[test]
fn names_are_probed_in_the_directory_they_lie_in() {
    let source = tree(vec![root(), entry("d", SyncEntryKind::Directory, None), entry("d/f", SyncEntryKind::File, None)]);
    let names = list_names(&source, &tree(vec![root()]));
    assert!(names.get("").unwrap().contains_key("d"));
    assert!(names.get("d").unwrap().contains_key("f"));
}

fn transfer_plan() -> Vec<PlanAction> {
    let transfer = |path: &str| PlanAction::TransferFile {
        rel_path: path.to_string(),
        size: 7,
        mode: 0o644,
        mtime_secs: 1,
        mtime_nanos: 0,
    };
    vec![
        PlanAction::RemoveEntry { rel_path: "extra".to_string(), is_dir: false },
        transfer("d/file"),
        PlanAction::CreateDir { rel_path: "d".to_string(), mode: 0o755 },
        PlanAction::Skip { rel_path: "same".to_string() },
    ]
}

fn performed(run: &Run) -> String {
    match run.next() {
        RunStep::Perform(PlanAction::CreateDir { rel_path, .. }) => format!("mkdir {rel_path}"),
        RunStep::Perform(PlanAction::TransferFile { rel_path, .. }) => format!("copy {rel_path}"),
        RunStep::Perform(PlanAction::RemoveEntry { rel_path, .. }) => format!("rm {rel_path}"),
        RunStep::Perform(other) => format!("{other:?}"),
        RunStep::EndSession => "end".to_string(),
        RunStep::Nothing => "nothing".to_string(),
    }
}

#[test]
fn a_run_removes_only_once_everything_was_copied() {
    let rules = rules(HostOs::Linux);
    let mut run = Run::start(&transfer_plan(), SyncDirection::HostToGuest, rules, false);
    let mut steps = Vec::new();
    while performed(&run) != "nothing" {
        steps.push(performed(&run));
        run.advance(RunEvent::Done);
    }
    assert_eq!(steps, ["mkdir d", "copy d/file", "rm extra", "end"]);
    let stats = run.into_result().unwrap().unwrap();
    assert_eq!((stats.copied_count, stats.transferred_bytes), (1, 7));
    assert_eq!((stats.deleted_count, stats.skipped_count), (1, 1));

    let failing = |event, direction| {
        let mut run = Run::start(&transfer_plan(), direction, rules, false);
        run.advance(RunEvent::Done);
        run.advance(event);
        assert_eq!(performed(&run), "nothing");
        run.advance(RunEvent::Done);
        assert_eq!(performed(&run), "nothing");
        run.into_result().unwrap().unwrap_err().message()
    };
    let (up, down) = (SyncDirection::HostToGuest, SyncDirection::GuestToHost);
    let got = || "Success".to_string();
    assert_eq!(
        failing(RunEvent::NotReady(got()), up),
        "expected WriteFileReady from agent, got Success"
    );
    assert_eq!(
        failing(RunEvent::NotReady(got()), down),
        "expected ReadFileReady from agent, got Success"
    );
    assert_eq!(
        failing(RunEvent::Unconfirmed(got()), up),
        "expected Success after file transfer, got Success"
    );
    assert_eq!(
        failing(RunEvent::Unconfirmed(got()), down),
        "guest did not confirm completed file transfer"
    );
    let mut unended = Run::start(&Vec::new(), up, rules, false);
    assert_eq!(performed(&unended), "end");
    unended.advance(RunEvent::Unconfirmed(got()));
    let error = unended.into_result().unwrap().unwrap_err();
    assert_eq!(error.message(), "expected session completion");
}

#[test]
fn a_link_of_the_box_is_checked_again_before_it_is_made() {
    let link = || vec![PlanAction::CreateSymlink {
        rel_path: "a".to_string(),
        target: "/etc/passwd".to_string(),
    }];
    let rules = rules(HostOs::Linux);
    let down = Run::start(&link(), SyncDirection::GuestToHost, rules, false);
    assert_eq!(performed(&down), "nothing");
    let error = down.into_result().unwrap().unwrap_err().message();
    assert!(error.contains("absolute symlink target"), "{error}");
    let up = Run::start(&link(), SyncDirection::HostToGuest, rules, false);
    assert!(up.into_result().is_none());
}

#[test]
fn an_upload_asks_again_where_it_writes_inside_the_destination() {
    let upload = || {
        Upload::start("/src/dir", Some(HostKind::Directory), false, "/dst", false, false).unwrap()
    };
    let ready = |status| SessionReply::Ready(status);
    let begun = upload();
    assert!(matches!(begun.next(), TransferStep::Begin(root) if root == "/dst"));
    let inside = begun.advance(ready(RootStatus::ExistingDirectory));
    assert!(matches!(inside.next(), TransferStep::Begin(root) if root == "/dst/dir"));
    let placed = inside.advance(ready(RootStatus::Missing));
    match placed.next() {
        TransferStep::Scan { root, status } => {
            assert_eq!(root, "/dst/dir");
            assert_eq!(status, RootStatus::Missing);
        }
        other => panic!("{other:?}"),
    }
    let straight = upload().advance(ready(RootStatus::Missing));
    assert!(matches!(straight.next(), TransferStep::Scan { root, .. } if root == "/dst"));
    assert!(straight.into_refusal().is_none());

    let odd = upload().advance(SessionReply::Other("Success".to_string()));
    assert!(matches!(odd.next(), TransferStep::Nothing));
    assert_eq!(odd.into_refusal().unwrap().message(), "expected SessionReady, got Success");
    let odd = upload()
        .advance(ready(RootStatus::ExistingDirectory))
        .advance(SessionReply::Other("Success".to_string()));
    assert_eq!(
        odd.into_refusal().unwrap().message(),
        "expected SessionReady on re-root, got Success"
    );
    let missing = Upload::start("/src", None, false, "/dst", false, false).unwrap_err();
    assert_eq!(missing.message(), "source does not exist: /src");
    let file = Upload::start("/src", Some(HostKind::File), false, "/dst", false, true).unwrap_err();
    assert!(file.message().contains("--delete"), "{}", file.message());
    let blocked = Upload::start("/src/f", Some(HostKind::File), false, "/dst", true, false)
        .unwrap()
        .advance(ready(RootStatus::ExistingFile));
    assert_eq!(
        blocked.into_refusal().unwrap().message(),
        "destination /dst ends in a separator but is an existing file"
    );
}

#[test]
fn a_download_looks_at_the_box_before_the_host() {
    let download = || Download::start("/box/link", false, "/dst", false, false);
    let answered = |status| DownloadEvent::Answered(SessionReply::Ready(status));
    let begun = download();
    assert!(matches!(begun.next(), TransferStep::Begin(root) if root == "/box/link"));
    let looking = begun.advance(answered(RootStatus::ExistingSymlink));
    assert!(matches!(looking.next(), TransferStep::Look(path) if path == "/dst"));
    let inside = looking.advance(DownloadEvent::Found(Some(true)));
    assert!(matches!(inside.next(), TransferStep::Scan { root, .. } if root == "/dst/link"));

    let replaced = download()
        .advance(answered(RootStatus::ExistingSymlink))
        .advance(DownloadEvent::Found(None));
    let error = replaced.into_refusal().unwrap().message();
    assert!(error.contains("cannot sync guest symlink /box/link to /dst"), "{error}");
    let missing = download().advance(answered(RootStatus::Missing));
    assert_eq!(
        missing.into_refusal().unwrap().message(),
        "guest source /box/link does not exist"
    );
}

#[test]
fn a_tree_must_have_the_root_its_box_announced() {
    let rules = rules(HostOs::Linux);
    let both = tree(vec![root()]);
    let plan = |status, direction| {
        let options = PlanOptions { direction, is_checksum: false, is_delete: false };
        plan_transfer(&both, &both, status, options, &TextMap::new(), tried(), &rules).is_ok()
    };
    assert!(plan(RootStatus::ExistingDirectory, SyncDirection::HostToGuest));
    assert!(!plan(RootStatus::ExistingFile, SyncDirection::HostToGuest));
    assert!(!plan(RootStatus::Missing, SyncDirection::GuestToHost));
}

#[test]
fn names_are_tried_where_they_would_be_written() {
    let directory = |path: &str| entry(path, SyncEntryKind::Directory, None);
    let file = |path: &str| entry(path, SyncEntryKind::File, None);
    let source = tree(vec![root(), directory("new"), directory("new/deep"), file("new/deep/a")]);
    let destination = tree(vec![root(), directory("old"), file("old/b")]);
    let steps = plan_probes(&list_names(&source, &destination), &destination, true);
    let told: Vec<String> = steps
        .iter()
        .map(|step| match step {
            ProbeStep::Check { directory } => format!("check '{directory}'"),
            ProbeStep::Open { directory, place } => match place {
                ProbePlace::Itself => format!("open '{directory}' in itself"),
                ProbePlace::Above => format!("open '{directory}' above"),
                ProbePlace::Inside(probe) => format!("open '{directory}' in {probe}"),
            },
            ProbeStep::Put { probe, name } => format!("put {name} in {probe}"),
        })
        .collect();
    assert_eq!(
        told,
        [
            "open '' in itself",
            "put new in 0",
            "put old in 0",
            "check 'new'",
            "open 'new' in 0",
            "put deep in 1",
            "check 'new/deep'",
            "open 'new/deep' in 1",
            "put a in 2",
            "check 'old'",
            "open 'old' in itself",
            "put b in 3",
        ]
    );
    let absent = plan_probes(&list_names(&source, &tree(Vec::new())), &tree(Vec::new()), false);
    assert!(matches!(&absent[0], ProbeStep::Open { place: ProbePlace::Above, .. }));

    assert!(check_put("d", "ss", PutResult::Put).is_ok());
    assert_eq!(
        check_put("d", "ss", PutResult::Taken("\u{df}".to_string())).unwrap_err().full_message(),
        "checking sync names in 'd': sync names '\u{df}' and 'ss' identify the same destination \
         entry; rename one before syncing"
    );
    assert_eq!(
        check_put("", "a", PutResult::Failed("denied".to_string())).unwrap_err().full_message(),
        "checking sync names in '': filename 'a' cannot be created on the destination \
         filesystem: denied"
    );
}

#[test]
fn waiting_on_a_box_ends_with_its_answer_or_a_refusal() {
    let mut scan = Scan::of_guest(rules(HostOs::Linux));
    assert!(!scan.take_guest_report(ReportEvent::Entry(root())).unwrap());
    assert!(scan.take_guest_report(ReportEvent::Complete).unwrap());
    let late = scan.take_guest_report(ReportEvent::Late).unwrap_err();
    assert_eq!(late.message(), "guest scan exceeded its time limit");
    let odd = scan.take_guest_report(ReportEvent::Other("Success".to_string())).unwrap_err();
    assert_eq!(odd.message(), "unexpected reply from agent during scan: Success");
    assert_eq!(scan.finish_guest().unwrap().len(), 1);

    assert_eq!(take_digest(DigestEvent::Progress).unwrap(), None);
    assert_eq!(take_digest(DigestEvent::Digest(vec![1, 2])).unwrap(), Some(vec![1, 2]));
    assert!(take_digest(DigestEvent::Late).is_err());
    let odd = take_digest(DigestEvent::Other("Entry".to_string())).unwrap_err();
    assert_eq!(odd.message(), "unexpected reply from agent during digest: Entry");
}

#[test]
fn files_that_move_under_a_transfer_are_refused() {
    assert!(check_still_source(3, 3, true).is_ok());
    assert!(check_still_source(3, 4, true).is_err());
    assert_eq!(
        check_still_source(3, 3, false).unwrap_err().message(),
        "source changed while transferring; retry with a quiet source"
    );
    assert!(check_hashed(3, 3, true).is_ok());
    assert_eq!(
        check_hashed(3, 4, true).unwrap_err().message(),
        "source changed while hashing"
    );
    assert!(check_hashing(false, 8, 8).is_ok());
    assert_eq!(
        check_hashing(false, 9, 8).unwrap_err().message(),
        "hashing exceeded its limit"
    );
    assert!(check_hashing(true, 0, 8).is_err());
    assert!(check_directory_to_make(None).is_ok() && check_directory_to_make(Some(true)).is_ok());
    assert_eq!(
        check_directory_to_make(Some(false)).unwrap_err().message(),
        "destination directory is a file or symlink"
    );
}

#[test]
fn download_rejects_links_through_pending_deletions_and_replacements() {
    let directory = |path: &str| entry(path, SyncEntryKind::Directory, None);
    let file = |path: &str| entry(path, SyncEntryKind::File, None);
    for is_delete in [true, false] {
        let mut entries = vec![root(), link("a", "d/up/../../x"), file("z")];
        if !is_delete {
            entries.extend([directory("d"), file("d/up")]);
        }
        let destination = tree(vec![root(), directory("d"), link("d/up", "..")]);
        let options =
            PlanOptions { direction: SyncDirection::GuestToHost, is_checksum: false, is_delete };
        let error = plan_transfer(
            &tree(entries),
            &destination,
            RootStatus::ExistingDirectory,
            options,
            &TextMap::new(),
            tried(),
            &rules(HostOs::Linux),
        )
        .unwrap_err();
        assert!(error.full_message().contains("escapes"), "{}", error.full_message());
    }
}

#[test]
fn download_rejects_a_symlink_that_replaces_the_destination() {
    let (from, to, direction) = parse_endpoints(":/link", "/scratch/out", HostOs::Linux).unwrap();
    assert_eq!(direction, SyncDirection::GuestToHost);
    let (src, src_trailing, dst, dst_trailing) = match (from, to) {
        (
            Endpoint::Guest { path: src, has_trailing_separator: src_trailing },
            Endpoint::Host { path: dst, has_trailing_separator: dst_trailing },
        ) => (src, src_trailing, dst, dst_trailing),
        other => panic!("{other:?}"),
    };
    let download = Download::start(&src, src_trailing, &dst, dst_trailing, false)
        .advance(DownloadEvent::Answered(SessionReply::Ready(RootStatus::ExistingSymlink)))
        .advance(DownloadEvent::Found(None));
    assert!(matches!(download.next(), TransferStep::Nothing));
    let error = download.into_refusal().unwrap().message();
    assert!(error.contains("symlink"), "{error}");
}

#[test]
fn empty_directory_download_creates_root_but_dry_run_does_not() {
    let empty = tree(vec![root()]);
    let options = PlanOptions {
        direction: SyncDirection::GuestToHost,
        is_checksum: false,
        is_delete: true,
    };
    let rules = rules(HostOs::Linux);
    let plan = plan_transfer(
        &empty,
        &tree(Vec::new()),
        RootStatus::ExistingDirectory,
        options,
        &TextMap::new(),
        tried(),
        &rules,
    )
    .unwrap();
    assert_eq!(
        dry_run_report(&schedule(&plan)),
        ["terra: [dry-run] mkdir ", "terra: [dry-run] dir mtime "]
    );
    let rehearsed = Run::start(&plan, SyncDirection::GuestToHost, rules, true);
    assert_eq!(performed(&rehearsed), "nothing");
    assert!(rehearsed.into_result().unwrap().is_ok());
    let mut run = Run::start(&plan, SyncDirection::GuestToHost, rules, false);
    assert_eq!(performed(&run), "mkdir ");
    run.advance(RunEvent::Done);
    match run.next() {
        RunStep::Perform(PlanAction::UpdateDirMetadata { rel_path, mtime_secs, .. }) => {
            assert_eq!((rel_path.as_str(), mtime_secs), ("", 1));
        }
        other => panic!("{other:?}"),
    }
}

/// What a destination says of names that it does not tell apart.
fn aliased(parent: &str, alias: &str, name: &str) -> TextMap<TextMap<ProbedName>> {
    let mut found = TextMap::new();
    found.insert(alias.to_string(), ProbedName::Named(name.to_string()));
    let mut answers = TextMap::new();
    answers.insert(parent.to_string(), found);
    answers
}

#[test]
fn link_checks_follow_unicode_aliases_including_directory_components() {
    let linux = rules(HostOs::Linux);
    for (name, alias) in [("ß", "ss"), ("ſ", "S"), ("café", "cafe\u{301}")] {
        let names = aliased("", alias, name);
        for existing in [false, true] {
            let mut source = tree(vec![
                entry("dir", SyncEntryKind::Directory, None),
                link("dir/up", ".."),
                link("link", &format!("{alias}/up/..")),
            ]);
            let mut destination = tree(Vec::new());
            if existing {
                destination.insert(name.to_string(), link(name, "dir"));
            } else {
                source.insert(name.to_string(), link(name, "dir"));
            }
            let error =
                validate_download_links(&source, &destination, &names, &linux).unwrap_err();
            assert!(error.message().contains("escapes"), "{}", error.message());
            assert!(
                validate_download_links(&source, &destination, &TextMap::new(), &linux).is_ok(),
                "where the names are told apart"
            );
        }

        let source = tree(vec![
            entry(name, SyncEntryKind::Directory, None),
            link(&format!("{name}/up"), ".."),
            link("link", &format!("{alias}/up/..")),
        ]);
        let none = tree(Vec::new());
        let error = validate_download_links(&source, &none, &names, &linux).unwrap_err();
        assert!(error.message().contains("escapes"), "{}", error.message());
        assert!(validate_download_links(&source, &none, &TextMap::new(), &linux).is_ok());
    }
}

#[test]
fn a_name_is_looked_up_where_it_was_tried() {
    let names = aliased("d", "SS", "\u{df}");
    assert_eq!(resolve_component(&names, "d", "SS").unwrap(), "\u{df}");
    assert_eq!(resolve_component(&names, "d", "other").unwrap(), "other");
    assert_eq!(resolve_component(&names, "", "SS").unwrap(), "SS");
    let mut unread = TextMap::new();
    unread.insert("x".to_string(), ProbedName::Unread("denied".to_string()));
    let mut answers = TextMap::new();
    answers.insert(String::new(), unread);
    let error = resolve_component(&answers, "", "x").unwrap_err().full_message();
    assert!(error.contains("denied"), "{error}");
}

#[test]
fn every_step_of_a_link_is_looked_up() {
    let linux = rules(HostOs::Linux);
    let source = tree(vec![
        entry("d", SyncEntryKind::Directory, None),
        link("d/up", ".."),
        link("l", "d/z/.."),
    ]);
    let destination = tree(vec![link("b", "e")]);
    assert_eq!(list_lookups(&source, &destination), ["..", "d", "z", "..", "e"]);

    // What is said of another name makes no difference; of a step it does.
    let verdict = |alias: &str| {
        validate_download_links(&source, &destination, &aliased("d", alias, "up"), &linux)
    };
    assert!(verdict("other").is_ok());
    assert!(verdict("z").unwrap_err().message().contains("escapes"));
}

#[test]
fn a_plan_is_refused_where_its_names_could_not_be_swept_up() {
    let both = tree(vec![root()]);
    let linux = rules(HostOs::Linux);
    let options = PlanOptions {
        direction: SyncDirection::GuestToHost,
        is_checksum: false,
        is_delete: false,
    };
    let unswept = Ok(HostNames {
        answers: TextMap::new(),
        closed: Err(Error::new("still there".to_string())),
    });
    let error = build_plan(&both, &both, options, &TextMap::new(), unswept, &linux).unwrap_err();
    assert_eq!(error.message(), "still there");
}

fn hash(chunks: &[&[u8]], size: u64, max: u64) -> Result<Vec<u8>, String> {
    let mut hashing = Hashing::start(size, max);
    for chunk in chunks {
        hashing = match hashing.advance(false, HashEvent::Chunk(chunk.to_vec())) {
            Ok(HashStep::More(more)) => more,
            Ok(HashStep::Digest(_)) => panic!("there is more"),
            Err(error) => return Err(error.full_message()),
        };
    }
    match hashing.advance(false, HashEvent::Ended { size_after: size, is_same_time: true }) {
        Ok(HashStep::Digest(digest)) => Ok(digest),
        Ok(HashStep::More(_)) => panic!("that was all"),
        Err(error) => Err(error.full_message()),
    }
}

#[test]
fn files_are_compared_by_the_digest_of_all_their_bytes() {
    let hex = |digest: &[u8]| -> String { digest.iter().map(|b| format!("{b:02x}")).collect() };
    let whole = hash(&[b"abc"], 3, 8).unwrap();
    assert_eq!(
        hex(&whole),
        "ba7816bf8f01cfea414140de5dae2223b00361a396177a9cb410ff61f20015ad"
    );
    assert_eq!(hash(&[b"a", b"", b"bc"], 3, 8).unwrap(), whole, "in portions");
    assert_eq!(
        hex(&hash(&[], 0, 8).unwrap()),
        "e3b0c44298fc1c149afbf4c8996fb92427ae41e4649b934ca495991b7852b855"
    );
    assert_eq!(hash(&[b"abcdefghi"], 9, 8).unwrap_err(), "hashing exceeded its limit");
    let changed = Hashing::start(3, 8)
        .advance(false, HashEvent::Ended { size_after: 4, is_same_time: true });
    match changed {
        Err(error) => assert_eq!(error.message(), "source changed while hashing"),
        Ok(_) => panic!("it changed"),
    }
    match Hashing::start(3, 8).advance(false, HashEvent::Interrupted) {
        Ok(HashStep::More(_)) => {}
        _ => panic!("it can be tried again"),
    }
    assert!(Hashing::start(3, 8).advance(true, HashEvent::Interrupted).is_err());

    let other = hash(&[b"abd"], 3, 8).unwrap();
    let pair = pair_digests(SyncDirection::GuestToHost, whole.clone(), other.clone());
    assert_eq!((&pair.source, &pair.target), (&whole, &other));
    assert!(!is_same_content(&pair));
    let pair = pair_digests(SyncDirection::HostToGuest, whole.clone(), other.clone());
    assert_eq!((&pair.source, &pair.target), (&other, &whole));
    assert!(is_same_content(&DigestPair { source: whole.clone(), target: whole }));
    let (up, down) = (SyncDirection::HostToGuest, SyncDirection::GuestToHost);
    assert_eq!(choose_host_file(up, "/src", "/dst", "a/b"), "/src/a/b");
    assert_eq!(choose_host_file(down, "/src", "/dst", "a/b"), "/dst/a/b");
    assert_eq!(choose_host_file(down, "/src", "/dst", ""), "/dst");
}

#[test]
fn a_checksum_plan_copies_what_differs_in_content() {
    let linux = rules(HostOs::Linux);
    let file = |secs| {
        tree(vec![SyncEntry { size: 3, mtime_secs: secs, ..entry("f", SyncEntryKind::File, None) }])
    };
    let (source, target) = (file(1), file(1));
    assert_eq!(files_to_compare(&source, &target, options(false, true)), ["f"]);
    let planned = |target_bytes: Option<&[u8]>| {
        let mut digests = TextMap::new();
        if let Some(bytes) = target_bytes {
            let source = hash(&[b"abc"], 3, 8).unwrap();
            let target = hash(&[bytes], 3, 8).unwrap();
            digests.insert("f".to_string(), DigestPair { source, target });
        }
        let plan =
            build_plan(&source, &target, options(false, true), &digests, tried(), &linux).unwrap();
        assert_eq!(plan.len(), 1);
        matches!(&plan[0], PlanAction::TransferFile { .. })
    };
    assert!(!planned(Some(b"abc")));
    assert!(planned(Some(b"abd")));
    assert!(planned(None), "nobody compared them");
}

#[test]
fn a_host_tree_is_read_directory_by_directory() {
    let facts = |kind| HostFacts {
        kind,
        len: 3,
        mode: 0o755,
        readonly: false,
        mtime_secs: 7,
        mtime_nanos: 8,
        link_target: None,
    };
    let limited = SyncRules { max_entries: 3, ..rules(HostOs::Linux) };
    let top = single_host_entry_map("/p", facts(HostKind::Directory), &limited).unwrap();
    let mut scan = Scan::of_host_directory(top, limited);
    assert_eq!(scan.next_directory().as_deref(), Some(""));
    assert_eq!(name_child("", ".."), None);
    let sub = name_child("", "sub").unwrap();
    scan.take_host_entry("/p/sub", &sub, None, facts(HostKind::Directory)).unwrap();
    assert_eq!(scan.next_directory().as_deref(), Some("sub"));
    let inner = name_child("sub", "f").unwrap();
    assert_eq!(inner, "sub/f");
    let odd = scan.take_host_entry("/p/sub/l", "sub/l", None, facts(HostKind::Symlink));
    assert_eq!(odd.unwrap_err().message(), "non-utf8 symlink target in /p/sub/l");
    let odd = scan.take_host_entry("/p/sub/s", "sub/s", None, facts(HostKind::Special));
    assert_eq!(odd.unwrap_err().message(), "unsupported special file: /p/sub/s");
    let odd = scan.take_host_entry(
        "/p/sub/b",
        "sub/b",
        Some("a name is too long".to_string()),
        facts(HostKind::File),
    );
    assert_eq!(odd.unwrap_err().message(), "a name is too long");
    scan.take_host_entry("/p/sub/f", &inner, None, facts(HostKind::File)).unwrap();
    assert_eq!(scan.next_directory(), None);
    let full = scan.take_host_entry("/p/g", "g", None, facts(HostKind::File));
    assert_eq!(
        full.unwrap_err().message(),
        "manifest exceeds maximum entry budget of 3 entries"
    );
    let entries = scan.into_entries();
    assert_eq!(entries.len(), 3);
    assert_eq!(entries.get("sub/f").unwrap().size, 3);
    assert_eq!(entries.get("sub").unwrap().size, 0);
}

#[test]
fn every_directory_above_a_host_file_is_looked_at() {
    let steps = list_host_path_steps("/p", "a/b/c");
    assert_eq!(steps, ["/p", "/p/a", "/p/a/b", "/p/a/b/c"]);
    let error = Error::new("gone\u{1b}[2J".to_string()).context("reading".to_string());
    assert_eq!(escape_error(error).message(), "reading: gone\\u{1b}[2J");
}
