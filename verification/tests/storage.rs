//! Importing, exporting and listing the images of a box, on a disk that is a
//! map of paths.

use std::collections::{BTreeMap, BTreeSet};
use terra::config::{Components, Config, Volume};
use terra::error::Error;
use terra::state::{BoxRef, BoxState};
use terra::storage::artifact::{
    Admitted, STORAGE_ARTIFACT_MAGIC, check_artifact, check_exported, check_restored, is_artifact,
    limits_add_up, name_length, read_entry_header, write_entry_header,
};
use terra::storage::install::{Install, InstallEvent, InstallStep};
use terra::storage::journal::{
    Commit, DiskAction, DiskEvent, IMPORT_JOURNAL, ImportEntry, ImportJournal, opening_journal,
};
use terra::storage::pack::{Pack, PackEvent, PackStep};
use terra::storage::recover::{JournalRead, Recover};
use terra::storage::unpack::{Unpack, UnpackEvent, UnpackStep};
use terra::storage::{
    ImageFacts, check_export_destination, choose_exports, format_mib, list_images_of, list_storage,
    no_images_yet, render_storage, warn_of_kept_images,
};

const BOX: &str = "/b";
const STAMP: &str = "/b/.baked";

fn new_box() -> BoxRef {
    BoxRef::from_state_dir(BOX.to_string(), "/p")
}

fn copy_journal(journal: &ImportJournal) -> ImportJournal {
    ImportJournal {
        staging: journal.staging.clone(),
        entries: journal
            .entries
            .iter()
            .map(|entry| ImportEntry { image: entry.image.clone(), existed: entry.existed })
            .collect(),
        committed: journal.committed,
    }
}

#[derive(Default)]
struct Disk {
    files: BTreeMap<String, Vec<u8>>,
    directories: BTreeSet<String>,
    journal: Option<ImportJournal>,
    steps: usize,
}

impl Disk {
    fn write(&mut self, path: &str, bytes: &[u8]) {
        self.files.insert(path.to_string(), bytes.to_vec());
    }

    fn read(&self, path: &str) -> Option<&[u8]> {
        self.files.get(path).map(Vec::as_slice)
    }

    fn missing() -> DiskEvent {
        DiskEvent::Missing("No such file or directory (os error 2)".to_string())
    }

    fn perform(&mut self, action: DiskAction) -> DiskEvent {
        self.steps += 1;
        match action {
            DiskAction::Probe { path } => {
                if self.directories.contains(&path) {
                    DiskEvent::Directory
                } else if self.files.contains_key(&path) {
                    DiskEvent::Done
                } else {
                    Disk::missing()
                }
            }
            DiskAction::Follow { path } => {
                if self.directories.contains(&path) || self.files.contains_key(&path) {
                    DiskEvent::Done
                } else {
                    Disk::missing()
                }
            }
            DiskAction::Rename { from, to } => match self.files.remove(&from) {
                Some(bytes) => {
                    self.files.insert(to, bytes);
                    DiskEvent::Done
                }
                None => Disk::missing(),
            },
            DiskAction::RemoveFile { path } => {
                if path == format!("{BOX}/{IMPORT_JOURNAL}") {
                    return match self.journal.take() {
                        Some(_) => DiskEvent::Done,
                        None => Disk::missing(),
                    };
                }
                if self.directories.contains(&path) {
                    return DiskEvent::Failed("Is a directory (os error 21)".to_string());
                }
                match self.files.remove(&path) {
                    Some(_) => DiskEvent::Done,
                    None => Disk::missing(),
                }
            }
            DiskAction::RemoveTree { path } => {
                let inside = format!("{path}/");
                self.files.retain(|file, _| !file.starts_with(&inside));
                if self.directories.remove(&path) {
                    DiskEvent::Done
                } else {
                    Disk::missing()
                }
            }
            DiskAction::Sync { .. } => DiskEvent::Done,
            DiskAction::Record { journal, .. } => {
                self.journal = Some(journal);
                DiskEvent::Done
            }
        }
    }

    fn read_journal(&self) -> JournalRead {
        match &self.journal {
            Some(journal) => JournalRead::Found(copy_journal(journal)),
            None => JournalRead::Missing,
        }
    }

    fn recover(&mut self) -> Result<(), Error> {
        let Some(mut recover) = Recover::start(&new_box(), STAMP, self.read_journal())? else {
            return Ok(());
        };
        while let Some(action) = recover.next() {
            let event = self.perform(action);
            recover = recover.advance(event);
        }
        recover.into_result().unwrap()
    }

    /// Installs staged images as an import does; stops after so many steps.
    fn commit_within(&mut self, staged: &[(&str, &str)], most: usize) -> Option<Result<(), Error>> {
        let staged = staged
            .iter()
            .map(|(path, stage)| (path.to_string(), stage.to_string()))
            .collect();
        let mut install = match Install::start(&new_box(), STAMP, "/b/.import.test", staged) {
            Ok(install) => install,
            Err(error) => return Some(Err(error)),
        };
        self.steps = 0;
        loop {
            let event = match install.next() {
                InstallStep::Nothing => return install.into_result(),
                _ if self.steps == most => return None,
                InstallStep::Act(action) => InstallEvent::Happened(self.perform(action)),
                InstallStep::ReadJournal => InstallEvent::Read(self.read_journal()),
            };
            install = install.advance(event);
        }
    }

    fn commit(&mut self, staged: &[(&str, &str)]) -> Result<(), Error> {
        self.commit_within(staged, usize::MAX).unwrap()
    }
}

/// Packs images as an export does.
fn pack(disk: &Disk, images: Vec<String>) -> Result<Vec<u8>, Error> {
    let mut stream = Vec::new();
    let mut open = Vec::new();
    let mut pack = Pack::start(images);
    loop {
        let event = match pack.next() {
            PackStep::Write(bytes) => {
                stream.extend(bytes);
                PackEvent::Done
            }
            PackStep::Open(path) => match disk.read(&path) {
                Some(bytes) => {
                    open = bytes.to_vec();
                    PackEvent::Done
                }
                None => PackEvent::Failed(Error::new("no such file".to_string())),
            },
            PackStep::Measure => PackEvent::Bytes(open.len() as u64),
            PackStep::Copy => {
                stream.extend(&open);
                PackEvent::Bytes(open.len() as u64)
            }
            PackStep::Finish | PackStep::Flush => PackEvent::Done,
            PackStep::Nothing => return pack.into_result().unwrap().map(|()| stream),
        };
        pack = pack.advance(event);
    }
}

/// Exports a box whose recipe names some volumes.
fn export(disk: &Disk, configured: &[&str]) -> Result<Vec<u8>, Error> {
    let files: Vec<String> = disk
        .files
        .keys()
        .filter_map(|path| path.strip_prefix("/b/"))
        .map(str::to_string)
        .collect();
    let images = list_images_of(&new_box(), &files);
    pack(disk, choose_exports(&new_box(), &images, &names(configured))?)
}

/// Takes the images out of an artifact that is read in portions of so many
/// bytes, with an interruption before each.
fn unpack(disk: &mut Disk, cfg: Config, stream: &[u8], portion: usize) -> Result<Vec<String>, Error> {
    assert!(limits_add_up(&cfg));
    let mut unpack = Unpack::start(&new_box(), cfg, "dev.terra", "/b/.import.test");
    let mut at = 0;
    let mut open = Vec::new();
    let mut is_interrupted = true;
    loop {
        let event = match unpack.next() {
            UnpackStep::Read(_) if is_interrupted => {
                is_interrupted = false;
                UnpackEvent::Interrupted
            }
            UnpackStep::Read(most) => {
                is_interrupted = true;
                let n = most.min(portion).min(stream.len() - at);
                at += n;
                UnpackEvent::Read(stream[at - n..at].to_vec())
            }
            UnpackStep::Create(_) => {
                open = Vec::new();
                UnpackEvent::Done
            }
            UnpackStep::Append(bytes) => {
                open.extend(bytes);
                UnpackEvent::Done
            }
            UnpackStep::Resize(len) => {
                open.resize(usize::try_from(len).unwrap(), 0);
                UnpackEvent::Done
            }
            UnpackStep::Place(path) => {
                disk.write(&path, &open);
                UnpackEvent::Done
            }
            UnpackStep::Nothing => return unpack.into_result().unwrap(),
        };
        unpack = unpack.advance(event);
    }
}

/// Imports an artifact into a box with a recipe.
fn import(disk: &mut Disk, cfg: Config, stream: &[u8], portion: usize) -> Result<(), Error> {
    disk.directories.insert("/b/.import.test".to_string());
    disk.journal = Some(opening_journal(".import.test"));
    match unpack(disk, cfg, stream, portion) {
        Ok(names) => {
            let staged: Vec<(String, String)> = names
                .iter()
                .map(|name| (format!("/b/{name}"), format!("/b/.import.test/{name}")))
                .collect();
            let staged: Vec<(&str, &str)> =
                staged.iter().map(|(path, stage)| (path.as_str(), stage.as_str())).collect();
            disk.commit(&staged)
        }
        Err(error) => {
            disk.recover().unwrap();
            Err(error)
        }
    }
}

/// The disk of a box with a root filesystem and some volumes.
fn box_disk(volumes: &[&str]) -> Disk {
    let mut disk = Disk::default();
    disk.write("/b/rootfs.img", b"rootfs data");
    for name in volumes {
        disk.write(&format!("/b/vol-{name}.img"), format!("{name} data").as_bytes());
    }
    disk
}

fn artifact(entries: &[(&str, u64, &[u8])]) -> Vec<u8> {
    let mut stream = STORAGE_ARTIFACT_MAGIC.as_bytes().to_vec();
    for (name, len, bytes) in entries {
        stream.extend(write_entry_header(name, *len).unwrap());
        stream.extend_from_slice(bytes);
    }
    stream
}

fn staging_disk() -> Disk {
    let mut disk = Disk::default();
    disk.directories.insert("/b/.import.test".to_string());
    disk.journal = Some(opening_journal(".import.test"));
    disk
}

#[test]
fn a_late_import_commit_failure_restores_all_original_images() {
    let mut disk = staging_disk();
    disk.write("/b/rootfs.img", b"old rootfs");
    disk.write("/b/vol-data.img", b"old volume");
    disk.write("/b/.import.test/rootfs.img", b"new rootfs");
    let staged = [
        ("/b/rootfs.img", "/b/.import.test/rootfs.img"),
        ("/b/vol-data.img", "/b/.import.test/missing-volume"),
    ];
    let error = disk.commit(&staged).unwrap_err();
    assert_eq!(error.message(), "restoring /b/vol-data.img");
    assert_eq!(disk.read("/b/rootfs.img"), Some(b"old rootfs".as_slice()));
    assert_eq!(disk.read("/b/vol-data.img"), Some(b"old volume".as_slice()));
    assert!(!disk.files.keys().any(|path| path.starts_with("/b/.import.test/")));
    assert!(disk.journal.is_none());
}

#[test]
fn only_rootfs_imports_clear_the_bake_stamp() {
    for name in ["rootfs.img", "vol-data.img"] {
        let mut disk = staging_disk();
        disk.write(STAMP, b"baked");
        let stage = format!("/b/.import.test/{name}");
        disk.write(&stage, b"new");
        disk.commit(&[(&format!("/b/{name}"), &stage)]).unwrap();
        assert_eq!(disk.files.contains_key(STAMP), name != "rootfs.img");
    }
}

#[test]
fn failed_stamp_removal_keeps_the_committed_journal_for_recovery() {
    let mut disk = staging_disk();
    disk.directories.insert(STAMP.to_string());
    disk.write("/b/.import.test/rootfs.img", b"new");
    disk.write("/b/rootfs.img", b"old");
    assert!(disk.commit(&[("/b/rootfs.img", "/b/.import.test/rootfs.img")]).is_err());
    assert!(disk.journal.is_some());
    assert!(disk.recover().is_err());
    disk.directories.remove(STAMP);
    disk.recover().unwrap();
    assert_eq!(disk.read("/b/rootfs.img"), Some(b"new".as_slice()));
    assert!(disk.journal.is_none());
    let files = disk.files.clone();
    disk.recover().unwrap();
    assert_eq!(disk.files, files, "another recovery changes nothing");
}

#[test]
fn import_commit_creates_missing_images() {
    let mut disk = staging_disk();
    disk.write("/b/.import.test/stage.img", b"new image");
    disk.commit(&[("/b/new.img", "/b/.import.test/stage.img")]).unwrap();
    assert_eq!(disk.read("/b/new.img"), Some(b"new image".as_slice()));
}

#[test]
fn recovery_restores_each_interrupted_import_stage() {
    for stage in 0..3 {
        let mut disk = Disk::default();
        let staging = format!("/b/.import.{stage}");
        disk.directories.insert(staging.clone());
        if stage == 0 {
            disk.write("/b/rootfs.img", b"old");
            disk.write(&format!("{staging}/rootfs.img"), b"new");
        } else {
            disk.write(&format!("{staging}/original-0"), b"old");
            if stage == 2 {
                disk.write("/b/rootfs.img", b"new");
            }
        }
        disk.journal = Some(ImportJournal {
            staging: format!(".import.{stage}"),
            entries: vec![ImportEntry { image: "rootfs.img".to_string(), existed: true }],
            committed: false,
        });
        disk.recover().unwrap();
        assert_eq!(disk.read("/b/rootfs.img"), Some(b"old".as_slice()), "stage {stage}");
        assert!(!disk.directories.contains(&staging));
    }
}

#[test]
fn interrupted_staging_is_cleaned_before_the_next_storage_operation() {
    let mut disk = staging_disk();
    disk.write("/b/.import.test/rootfs.img", b"partial");
    disk.write("/b/rootfs.img", b"original");
    disk.recover().unwrap();
    assert!(!disk.directories.contains("/b/.import.test"));
    assert_eq!(disk.read("/b/rootfs.img"), Some(b"original".as_slice()));
}

#[test]
fn storage_recovery_restores_a_partial_multi_image_commit() {
    let names = ["rootfs.img", "vol-data.img", "vol-new.img"];
    for mutations in 0..=5 {
        for committed in [false, true] {
            if committed && mutations != 5 {
                continue;
            }
            let mut disk = staging_disk();
            disk.write(STAMP, b"baked");
            for (index, name) in names.iter().enumerate() {
                if index < 2 {
                    disk.write(&format!("/b/{name}"), b"old");
                }
                disk.write(&format!("/b/.import.test/{name}"), b"new");
            }
            let mut operations = 0;
            for (index, name) in names.iter().enumerate() {
                if index < 2 {
                    if operations == mutations {
                        break;
                    }
                    let old = disk.files.remove(&format!("/b/{name}")).unwrap();
                    disk.write(&format!("/b/.import.test/original-{index}"), &old);
                    operations += 1;
                }
                if operations == mutations {
                    break;
                }
                let new = disk.files.remove(&format!("/b/.import.test/{name}")).unwrap();
                disk.write(&format!("/b/{name}"), &new);
                operations += 1;
            }
            disk.journal = Some(ImportJournal {
                staging: ".import.test".to_string(),
                entries: names
                    .iter()
                    .enumerate()
                    .map(|(index, name)| ImportEntry {
                        image: name.to_string(),
                        existed: index < 2,
                    })
                    .collect(),
                committed,
            });
            disk.recover().unwrap();
            assert_eq!(disk.files.contains_key(STAMP), !committed);
            for (index, name) in names.iter().enumerate() {
                let image = disk.read(&format!("/b/{name}"));
                if committed || index < 2 {
                    let expected: &[u8] = if committed { b"new" } else { b"old" };
                    assert_eq!(image, Some(expected), "{mutations} mutations, {name}");
                } else {
                    assert_eq!(image, None);
                }
            }
        }
    }
}

#[test]
fn an_import_that_stops_anywhere_is_recovered_whole() {
    let staged = [
        ("/b/rootfs.img", "/b/.import.test/rootfs.img"),
        ("/b/vol-data.img", "/b/.import.test/vol-data.img"),
        ("/b/vol-new.img", "/b/.import.test/vol-new.img"),
    ];
    for most in 0..16 {
        let mut disk = staging_disk();
        disk.write("/b/rootfs.img", b"old");
        disk.write("/b/vol-data.img", b"old");
        for (_, stage) in staged {
            disk.write(stage, b"new");
        }
        let ended = disk.commit_within(&staged, most);
        disk.recover().unwrap();
        let images: Vec<Option<&[u8]>> = staged.iter().map(|(path, _)| disk.read(path)).collect();
        let old: [Option<&[u8]>; 3] = [Some(b"old"), Some(b"old"), None];
        let new: [Option<&[u8]>; 3] = [Some(b"new"), Some(b"new"), Some(b"new")];
        if ended.is_some() {
            assert_eq!(images, new, "after {most} steps");
        } else {
            assert!(images == old || images == new, "after {most} steps: {images:?}");
        }
        assert!(disk.journal.is_none());
    }
}

#[test]
fn a_commit_needs_images_and_a_staging_directory_of_its_own() {
    let mut disk = Disk::default();
    assert_eq!(disk.commit(&[]).unwrap_err().message(), "import has no staged images");
    let pair = vec![("/b/rootfs.img".to_string(), "/b/x/rootfs.img".to_string())];
    assert_eq!(
        Commit::start(BOX, "/b/x", pair).unwrap_err().message(),
        "import staging directory has an invalid name"
    );
    let mut disk = staging_disk();
    disk.directories.insert("/b/rootfs.img".to_string());
    disk.write("/b/.import.test/rootfs.img", b"new");
    assert_eq!(
        disk.commit(&[("/b/rootfs.img", "/b/.import.test/rootfs.img")]).unwrap_err().message(),
        "image /b/rootfs.img is a directory"
    );
}

#[test]
fn a_rollback_that_fails_says_where_the_originals_are() {
    let staged = vec![("/b/rootfs.img".to_string(), "/b/.import.x/rootfs.img".to_string())];
    let failed = |why: &str| DiskEvent::Failed(why.to_string());
    let began = || {
        Commit::start(BOX, "/b/.import.x", vec![(staged[0].0.clone(), staged[0].1.clone())])
            .unwrap()
            .advance(DiskEvent::Done)
            .advance(DiskEvent::Done)
            .advance(DiskEvent::Done)
            .advance(DiskEvent::Done)
            .advance(failed("no space"))
    };
    let error = began().advance(failed("busy")).into_result().unwrap().unwrap_err();
    assert_eq!(
        error.full_message(),
        "rollback could not remove /b/rootfs.img: busy; original images remain in the import \
         staging directory: restoring /b/rootfs.img: no space"
    );
    let error = began()
        .advance(DiskEvent::Done)
        .advance(failed("gone"))
        .into_result()
        .unwrap()
        .unwrap_err();
    assert_eq!(
        error.full_message(),
        "restoring /b/rootfs.img: no space; rollback failed: restore /b/rootfs.img from \
         /b/.import.x/original-0: gone"
    );
}

#[test]
fn a_journal_that_cannot_be_followed_is_refused() {
    let start = |read| Recover::start(&new_box(), STAMP, read);
    assert!(start(JournalRead::Missing).unwrap().is_none());
    assert_eq!(
        start(JournalRead::Unreadable("denied".to_string())).unwrap_err().full_message(),
        "reading /b/.import-journal: denied"
    );
    assert_eq!(
        start(JournalRead::Malformed("eof".to_string())).unwrap_err().full_message(),
        "reading import recovery journal: eof"
    );
    for staging in ["../x", ".import.a/b", ".import.a\\b", "x"] {
        let journal = opening_journal(staging);
        assert_eq!(
            start(JournalRead::Found(journal)).unwrap_err().message(),
            "import recovery journal has an invalid staging directory",
            "{staging}"
        );
    }
    let journal = ImportJournal {
        staging: ".import.a".to_string(),
        entries: vec![ImportEntry { image: "../evil".to_string(), existed: true }],
        committed: false,
    };
    let recover = start(JournalRead::Found(journal)).unwrap().unwrap();
    assert_eq!(
        recover.into_result().unwrap().unwrap_err().message(),
        "import recovery journal names an invalid image"
    );
}

fn config(rootfs_mib: u32, volumes: &[(&str, u32)]) -> Config {
    let mut cfg = Config::with_components(Components {
        memory_mib: 16,
        total_memory_mib: 64,
        network: None,
    });
    cfg.hw.rootfs_mib = rootfs_mib;
    for (name, size_mib) in volumes {
        cfg.volumes.push(Volume {
            name: name.to_string(),
            guest: format!("/{name}"),
            size_mib: *size_mib,
        });
    }
    cfg
}

const MIB: u64 = 1024 * 1024;

#[test]
fn an_artifact_naming_a_path_outside_the_box_is_refused() {
    let mut disk = box_disk(&[]);
    disk.write("/private.txt", b"mine");
    for smuggled in [
        "../../private.txt",
        "/etc/passwd",
        "vol-../../private.txt.img",
        "recipe.yaml",
        "",
    ] {
        let stream = artifact(&[(smuggled, 4, b"pwnd")]);
        let error = import(&mut disk, config(512, &[]), &stream, usize::MAX).unwrap_err().message();
        assert!(error.contains("not an image a box holds"), "{smuggled}: {error}");
    }
    assert_eq!(disk.read("/private.txt"), Some(b"mine".as_slice()));
    assert_eq!(disk.files.len(), 2);
}

#[test]
fn an_artifact_larger_than_the_configured_image_is_refused_before_staging() {
    let bx = new_box();
    let error = Admitted::new()
        .accept(&bx, &config(512, &[]), "too-large.terra", "rootfs.img", 512 * 1024 * 1024 + 1)
        .unwrap_err()
        .message();
    assert!(error.contains("configured"), "{error}");
    let mut disk = box_disk(&[]);
    let stream = artifact(&[("rootfs.img", 512 * 1024 * 1024 + 1, b"")]);
    let error = import(&mut disk, config(512, &[]), &stream, usize::MAX).unwrap_err().message();
    assert!(error.contains("configured"), "{error}");
    assert_eq!(disk.read("/b/rootfs.img"), Some(b"rootfs data".as_slice()));
    let cfg = config(1, &[("data", 2)]);
    let from = "in.artifact";
    let admitted = Admitted::new().accept(&bx, &cfg, from, "rootfs.img", MIB).unwrap();
    assert_eq!(
        admitted.accept(&bx, &cfg, from, "rootfs.img", 1).unwrap_err().message(),
        "in.artifact carries 'rootfs.img' twice"
    );
    assert_eq!(
        Admitted::new().accept(&bx, &cfg, from, "rootfs.img", MIB + 1).unwrap_err().message(),
        "in.artifact carries 'rootfs.img' at 1048577 bytes, past its configured 1048576-byte limit"
    );
    assert!(Admitted::new().accept(&bx, &cfg, from, "vol-data.img", 2 * MIB).is_ok());
    assert_eq!(
        Admitted::new().accept(&bx, &cfg, from, "vol-other.img", 1).unwrap_err().message(),
        "vol-other.img is not a configured image"
    );
    assert_eq!(
        Admitted::new().finish(from).unwrap_err().message(),
        "in.artifact holds no images"
    );
    let all = Admitted::new()
        .accept(&bx, &cfg, from, "rootfs.img", MIB)
        .unwrap()
        .accept(&bx, &cfg, from, "vol-data.img", 5)
        .unwrap()
        .finish(from)
        .unwrap();
    assert_eq!(all, ["rootfs.img", "vol-data.img"]);
}

#[test]
fn images_within_their_limits_are_within_the_limit_of_all() {
    let cfg = config(0, &[("a", 3), ("b", 0)]);
    let admitted = Admitted::new().accept(&new_box(), &cfg, "f", "vol-a.img", 3 * MIB).unwrap();
    assert!(admitted.accept(&new_box(), &cfg, "f", "vol-b.img", 0).is_ok());
    let all: Vec<(&str, u32)> = vec![("v", u32::MAX); 5000];
    assert!(!limits_add_up(&config(1, &all)), "they cannot even be counted");
    assert!(limits_add_up(&config(1, &all[..4000])));
}

#[test]
fn an_artifact_carries_every_image_of_a_box_into_another() {
    let mut from = box_disk(&["data", "cache"]);
    let mut rootfs = b"rootfs data".to_vec();
    rootfs.resize(1 << 20, 0);
    from.write("/b/rootfs.img", &rootfs);
    let stream = export(&from, &["data", "cache"]).unwrap();

    for portion in [1000, 1 << 16, usize::MAX] {
        let mut into = box_disk(&["data", "cache"]);
        into.write("/b/vol-own.img", b"kept");
        into.write("/b/vol-data.img", b"other");
        into.write(STAMP, b"baked");
        let cfg = config(512, &[("data", 8), ("cache", 8)]);
        import(&mut into, cfg, &stream, portion).unwrap();
        for name in ["rootfs.img", "vol-data.img", "vol-cache.img"] {
            let path = format!("/b/{name}");
            assert!(into.read(&path) == from.read(&path), "{name} did not survive the round trip");
        }
        assert_eq!(into.read("/b/vol-own.img"), Some(b"kept".as_slice()));
        assert_eq!(into.files.len(), 4, "no stamp and nothing staged");
        assert!(into.journal.is_none());
    }

    let images: [(&str, &[u8]); 2] = [("rootfs.img", b"root"), ("vol-dat\u{e4}.img", b"")];
    let mut rest = artifact(&[("rootfs.img", 4, b"root"), ("vol-dat\u{e4}.img", 0, b"")]);
    rest.drain(..STORAGE_ARTIFACT_MAGIC.len());
    for (wanted, content) in images {
        let (name, len) = read_entry_header(&rest, "early end").unwrap().unwrap();
        let at = 10 + name_length(&rest);
        let end = at + usize::try_from(len).unwrap();
        assert_eq!((name.as_str(), &rest[at..end]), (wanted, content));
        rest.drain(..end);
    }
    assert!(rest.is_empty());
}

#[test]
fn sparse_import_retries_interrupted_reads() {
    let payload = [1, 0, 0, 2, 0, 0];
    let stream = artifact(&[("rootfs.img", 6, &payload)]);
    for portion in 1..8 {
        let mut disk = box_disk(&[]);
        import(&mut disk, config(1, &[]), &stream, portion).unwrap();
        assert_eq!(disk.read("/b/rootfs.img"), Some(payload.as_slice()), "{portion} at a time");
    }
}

#[test]
fn an_import_cut_off_part_way_leaves_the_images_it_reached_intact() {
    let zeros = vec![0; 1 << 20];
    let stream = artifact(&[
        ("rootfs.img", 1 << 20, &zeros),
        ("vol-data.img", 1 << 20, b"a few bytes"),
    ]);
    let mut disk = box_disk(&["data"]);
    let error = import(&mut disk, config(512, &[("data", 8)]), &stream, 1 << 16).unwrap_err();
    assert!(error.full_message().contains("part-way through"), "{}", error.full_message());
    assert_eq!(disk.read("/b/rootfs.img"), Some(b"rootfs data".as_slice()));
    assert_eq!(disk.read("/b/vol-data.img"), Some(b"data data".as_slice()));
    assert_eq!(disk.files.len(), 2, "{:?}", disk.files.keys());
    assert!(disk.journal.is_none() && disk.directories.is_empty());
}

#[test]
fn what_goes_wrong_while_images_travel_is_named() {
    let failed = |why: &str| Error::new(why.to_string());
    let opened = || {
        Pack::start(vec!["/b/rootfs.img".to_string()])
            .advance(PackEvent::Done)
            .advance(PackEvent::Done)
    };
    let said = |pack: Pack| pack.into_result().unwrap().unwrap_err().full_message();
    assert_eq!(
        said(opened().advance(PackEvent::Failed(failed("gone")))),
        "reading /b/rootfs.img: gone"
    );
    let copying = || opened().advance(PackEvent::Bytes(8)).advance(PackEvent::Done);
    assert_eq!(
        said(copying().advance(PackEvent::Bytes(7))),
        "/b/rootfs.img changed size while it was being exported"
    );
    let finishing = || copying().advance(PackEvent::Bytes(8));
    assert_eq!(
        said(finishing().advance(PackEvent::Failed(failed("full")))),
        "compressing the artifact: full"
    );
    assert_eq!(
        said(finishing().advance(PackEvent::Done).advance(PackEvent::Failed(failed("full")))),
        "writing the artifact: full"
    );
    assert_eq!(
        said(Pack::start(vec!["/b/..".to_string()]).advance(PackEvent::Done)),
        "/b/.. is not a name an artifact can carry"
    );

    let stream = artifact(&[("rootfs.img", 4, b"root")]);
    let announced = || {
        Unpack::start(&new_box(), config(1, &[]), "dev.terra", "/b/.import.test")
            .advance(UnpackEvent::Read(stream[..16].to_vec()))
            .advance(UnpackEvent::Read(stream[16..26].to_vec()))
            .advance(UnpackEvent::Read(stream[26..36].to_vec()))
    };
    assert!(matches!(announced().next(), UnpackStep::Create(path) if path == "/b/.import.test/rootfs.img"));
    let said = |unpack: Unpack| unpack.into_result().unwrap().unwrap_err().full_message();
    assert_eq!(said(announced().advance(UnpackEvent::Failed(failed("full")))), "full");
    let created = || announced().advance(UnpackEvent::Done);
    assert_eq!(
        said(created().advance(UnpackEvent::Failed(failed("corrupt")))),
        "reading the artifact: corrupt"
    );
    let appending = || created().advance(UnpackEvent::Read(b"root".to_vec()));
    assert_eq!(
        said(appending().advance(UnpackEvent::Failed(failed("full")))),
        "writing /b/.import.test/rootfs.img: full"
    );
    let sizing = || appending().advance(UnpackEvent::Done);
    assert!(matches!(sizing().next(), UnpackStep::Resize(4)));
    assert_eq!(
        said(sizing().advance(UnpackEvent::Failed(failed("full")))),
        "sizing /b/.import.test/rootfs.img: full"
    );
    let started = || Unpack::start(&new_box(), config(1, &[]), "dev.terra", "/b/.import.test");
    let marked = started().advance(UnpackEvent::Read(stream[..16].to_vec()));
    assert_eq!(
        said(marked.advance(UnpackEvent::Read(vec![1])).advance(UnpackEvent::Read(Vec::new()))),
        "reading the artifact: failed to fill whole buffer"
    );
    assert!(
        said(started().advance(UnpackEvent::Failed(failed("corrupt"))))
            .contains("not a terra storage artifact")
    );
}

#[test]
fn an_entry_header_is_two_sizes_and_a_name() {
    let header = write_entry_header("ab", 0x0102_0304_0506_0708).unwrap();
    assert_eq!(header, [2, 0, 8, 7, 6, 5, 4, 3, 2, 1, b'a', b'b']);
    let long = "x".repeat(65_536);
    let error = write_entry_header(&long, 0).unwrap_err();
    assert!(error.message().ends_with("is too long to name in an artifact"));
    assert!(write_entry_header(&"x".repeat(65_535), 0).is_ok());
}

#[test]
fn a_partial_entry_header_is_refused_as_incomplete() {
    for len in 1..10 {
        let bytes = vec![0; len];
        assert!(read_entry_header(&bytes, "early end").is_err(), "{len}");
    }
    assert!(read_entry_header(&Vec::new(), "early end").unwrap().is_none());
    let header = write_entry_header("rootfs.img", 7).unwrap();
    for n in 1..header.len() {
        let error = read_entry_header(&header[..n].to_vec(), "early end").unwrap_err();
        assert_eq!(error.full_message(), "reading the artifact: early end", "{n} bytes");
    }
    assert_eq!(
        read_entry_header(&header, "early end").unwrap(),
        Some(("rootfs.img".to_string(), 7))
    );
    let error = read_entry_header(&vec![1, 0, 0, 0, 0, 0, 0, 0, 0, 0, 0xff], "early end").unwrap_err();
    assert_eq!(
        error.full_message(),
        "the artifact names a file in no known encoding: invalid utf-8 sequence of 1 bytes from index 0"
    );
}

#[test]
fn a_file_that_is_not_an_artifact_is_refused_before_anything_is_written() {
    let holiday = b"\xff\xd8\xff\xe0 not a terra artifact at all";
    let error = check_artifact(&holiday[..16].to_vec(), "holiday.jpg").unwrap_err().message();
    assert!(error.contains("not a terra storage artifact"), "{error}");
    assert!(is_artifact(&b"terra-storage-1\n".to_vec()));
    assert!(!is_artifact(&b"terra-storage-2\n".to_vec()));
    assert!(!is_artifact(&b"terra-storage-1".to_vec()));
    assert!(!is_artifact(&Vec::new()));

    let mut disk = box_disk(&[]);
    let error = import(&mut disk, config(512, &[]), holiday, usize::MAX).unwrap_err().message();
    assert!(error.contains("not a terra storage artifact"), "{error}");
    assert_eq!(disk.read("/b/rootfs.img"), Some(b"rootfs data".as_slice()));
    let error =
        import(&mut disk, config(512, &[]), &artifact(&[]), usize::MAX).unwrap_err().message();
    assert!(error.contains("no images"), "{error}");
}

#[test]
fn an_image_that_changed_or_was_cut_off_is_not_taken_for_whole() {
    assert!(check_restored("/b/rootfs.img", 5, 5).is_ok());
    assert_eq!(
        check_restored("/b/rootfs.img", 4, 5).unwrap_err().message(),
        "the artifact ends part-way through /b/rootfs.img"
    );
    assert!(check_exported("/b/rootfs.img", 5, 5).is_ok());
    assert!(check_exported("/b/rootfs.img", 6, 5).unwrap_err().message().contains("changed size"));
}

fn names(list: &[&str]) -> Vec<String> {
    list.iter().map(|name| name.to_string()).collect()
}

#[test]
fn export_omits_volume_images_the_recipe_dropped() {
    let bx = new_box();
    let files = names(&["vol-old.img", "recipe.yaml", "vol-data.img", "rootfs.img"]);
    let images = list_images_of(&bx, &files);
    assert_eq!(images, ["/b/rootfs.img", "/b/vol-data.img", "/b/vol-old.img"]);
    assert_eq!(
        choose_exports(&bx, &images, &names(&["data"])).unwrap(),
        ["/b/rootfs.img", "/b/vol-data.img"]
    );
    assert!(
        choose_exports(&bx, &names(&["/b/vol-old.img"]), &names(&["data"]))
            .unwrap_err()
            .message()
            .contains("has no images to export")
    );

    let mut from = box_disk(&["data"]);
    from.write("/b/vol-old.img", b"dropped");
    let stream = export(&from, &["data"]).unwrap();
    let mut into = box_disk(&["data"]);
    import(&mut into, config(512, &[("data", 8)]), &stream, usize::MAX).unwrap();
    assert_eq!(into.files.len(), 2);
}

#[test]
fn export_refuses_box_state_and_preserves_its_files() {
    for (destination, renamed) in [
        ("/b/rootfs.img", None),
        ("/b/recipe.yaml", None),
        ("/b/terra.pid", None),
        ("/b", None),
        ("/b/new/artifact", None),
        ("/d/state-alias/artifact", Some("/b/artifact".to_string())),
        ("/b/link", Some("/d/outside".to_string())),
    ] {
        let error = check_export_destination("out", destination, &renamed, BOX).unwrap_err();
        assert!(error.message().contains("inside box state"), "{destination}");
    }
    let renamed = Some("/bx/out".to_string());
    assert!(check_export_destination("out", "/elsewhere/out", &renamed, BOX).is_ok());
}

#[test]
fn prune_removes_the_volumes_the_recipe_dropped_and_nothing_else() {
    let bx = new_box();
    let files = names(&["vol-old.img", "vol-data.img", "rootfs.img", "terra.log"]);
    assert_eq!(bx.unused_volume_images(&files, &names(&["data"])), ["/b/vol-old.img"]);
    assert!(bx.unused_volume_images(&files, &names(&["data", "old"])).is_empty());
}

#[test]
fn an_import_warns_of_images_the_artifact_did_not_carry() {
    let warnings = warn_of_kept_images(
        &new_box(),
        &names(&["/b/rootfs.img", "/b/vol-old.img"]),
        &names(&["/b/rootfs.img"]),
    );
    assert_eq!(warnings.len(), 1);
    assert!(warnings[0].contains("keeping /b/vol-old.img"), "{}", warnings[0]);
    assert!(warnings[0].contains("terra b storage prune"), "{}", warnings[0]);
}

fn facts(path: &str, virtual_bytes: u64, disk_bytes: u64) -> ImageFacts {
    ImageFacts { path: path.to_string(), virtual_bytes, disk_bytes }
}

#[test]
fn storage_show_json_renders_images_and_total() {
    let output = list_storage(&vec![facts("/tmp/rootfs.ext4", 1024, 512)], &Vec::new());
    assert_eq!(output.images.len(), 1);
    assert_eq!(output.images[0].name, "rootfs.ext4");
    assert_eq!(output.images[0].path, "/tmp/rootfs.ext4");
    assert_eq!(output.images[0].virtual_bytes, 1024);
    assert_eq!(output.images[0].disk_bytes, 512);
    assert!(!output.images[0].is_unused);
    assert_eq!(output.total_disk_bytes, 512);

    let images = vec![
        facts("/b/rootfs.img", 512 * MIB, 40 * MIB),
        facts("/b/vol-old.img", MIB, MIB),
    ];
    let output = list_storage(&images, &names(&["/b/vol-old.img"]));
    assert_eq!(output.total_disk_bytes, 41 * MIB);
    assert_eq!(output.images.len(), 2);
    assert_eq!(output.images[0].name, "rootfs.img");
    assert!(!output.images[0].is_unused);
    assert_eq!(output.images[1].path, "/b/vol-old.img");
    assert!(output.images[1].is_unused);
}

#[test]
fn the_storage_page_lines_its_columns_up() {
    let images = vec![
        facts("/b/rootfs.img", 512 * MIB, 40 * MIB + MIB / 2),
        facts("/b/vol-old.img", MIB, MIB),
    ];
    let page = render_storage(&new_box(), BoxState::Stopped, &images, &names(&["/b/vol-old.img"]));
    assert_eq!(
        page,
        "stopped      b\n\
         \x20 rootfs.img      512.0 MiB      40.5 MiB on disk\n\
         \x20 vol-old.img       1.0 MiB       1.0 MiB on disk  (unused - `terra b storage prune` removes it)\n\
         \x20 total                          41.5 MiB on disk\n"
    );
    assert!(no_images_yet(&new_box()).contains("`terra b setup` builds them"));
}

#[test]
fn sizes_are_cut_rather_than_rounded() {
    assert_eq!(format_mib(0), "0.0 MiB");
    assert_eq!(format_mib(MIB - 1), "0.9 MiB");
    assert_eq!(format_mib(MIB), "1.0 MiB");
    assert_eq!(format_mib(u64::MAX), "17592186044415.9 MiB");
}

#[test]
fn a_file_that_is_no_artifact_is_named() {
    assert!(check_artifact(&b"terra-storage-1\n".to_vec(), "/tmp/box.gz").is_ok());
    assert_eq!(
        check_artifact(&b"PK".to_vec(), "/tmp/box.gz").unwrap_err().message(),
        "/tmp/box.gz is not a terra storage artifact (`terra <box> storage export` writes one)"
    );
}
