//! How an import puts its images in place: each original is kept until all are
//! there, and a journal says how to go back from wherever an import stopped.
//!
//! Both ways are machines: each asks for one thing to be done to the disk and
//! is told what came of it.

use crate::error::{self, Error, Refusal, refuse};
use crate::path::{self, file_name_of, join};
use crate::text::{self, spell, starts_with};
use vstd::prelude::*;

verus! {

pub const IMPORT_JOURNAL: &'static str = ".import-journal";

/// One image of an import, and whether the box had it before.
#[derive(Debug)]
pub struct ImportEntry {
    pub image: String,
    pub existed: bool,
}

#[verifier::ext_equal]
pub struct EntryRecord {
    pub image: Seq<char>,
    pub existed: bool,
}

impl View for ImportEntry {
    type V = EntryRecord;

    open spec fn view(&self) -> EntryRecord {
        EntryRecord { image: self.image@, existed: self.existed }
    }
}

/// What is recorded of an import that is under way.
#[derive(Debug)]
pub struct ImportJournal {
    pub staging: String,
    pub entries: Vec<ImportEntry>,
    pub committed: bool,
}

#[verifier::ext_equal]
pub struct JournalView {
    pub staging: Seq<char>,
    pub entries: Seq<EntryRecord>,
    pub committed: bool,
}

/// What a list of entries shows.
pub open spec fn records(entries: Seq<ImportEntry>) -> Seq<EntryRecord> {
    Seq::new(entries.len(), |i: int| entries[i]@)
}

impl View for ImportJournal {
    type V = JournalView;

    open spec fn view(&self) -> JournalView {
        JournalView {
            staging: self.staging@,
            entries: records(self.entries@),
            committed: self.committed,
        }
    }
}

fn copy_entries(entries: &Vec<ImportEntry>) -> (copy: Vec<ImportEntry>)
    ensures
        records(copy@) == records(entries@),
{
    let mut copy: Vec<ImportEntry> = Vec::new();
    let mut i: usize = 0;
    while i < entries.len()
        invariant
            i <= entries@.len(),
            records(copy@) == records(entries@).take(i as int),
        decreases entries.len() - i,
    {
        let ghost before = copy@;
        copy.push(
            ImportEntry {
                image: entries[i].image.as_str().to_owned(),
                existed: entries[i].existed,
            },
        );
        proof {
            assert(records(copy@) =~= records(before).push(entries@[i as int]@));
            assert(records(entries@).take(i + 1) =~= records(entries@).take(i as int).push(
                entries@[i as int]@,
            ));
        }
        i = i + 1;
    }
    proof {
        assert(records(entries@).take(i as int) =~= records(entries@));
    }
    copy
}

/// The journal an import starts with, before anything is staged.
pub fn opening_journal(staging: &str) -> (journal: ImportJournal)
    ensures
        journal@ == (JournalView { staging: staging@, entries: Seq::empty(), committed: false }),
{
    let journal = ImportJournal {
        staging: staging.to_owned(),
        entries: Vec::new(),
        committed: false,
    };
    proof {
        assert(records(journal.entries@) =~= Seq::<EntryRecord>::empty());
    }
    journal
}

/// One thing to do to the disk.
#[derive(Debug)]
pub enum DiskAction {
    /// Look what is there, without following a link.
    Probe { path: String },
    /// Look what is there once links are followed.
    Follow { path: String },
    Rename { from: String, to: String },
    RemoveFile { path: String },
    RemoveTree { path: String },
    /// Make sure that a directory's entries are on disk.
    Sync { path: String },
    /// Replace the journal, all at once.
    Record { path: String, journal: ImportJournal },
}

#[verifier::ext_equal]
pub enum ActionView {
    Probe { path: Seq<char> },
    Follow { path: Seq<char> },
    Rename { from: Seq<char>, to: Seq<char> },
    RemoveFile { path: Seq<char> },
    RemoveTree { path: Seq<char> },
    Sync { path: Seq<char> },
    Record { path: Seq<char>, journal: JournalView },
}

impl View for DiskAction {
    type V = ActionView;

    open spec fn view(&self) -> ActionView {
        match self {
            DiskAction::Probe { path } => ActionView::Probe { path: path@ },
            DiskAction::Follow { path } => ActionView::Follow { path: path@ },
            DiskAction::Rename { from, to } => ActionView::Rename { from: from@, to: to@ },
            DiskAction::RemoveFile { path } => ActionView::RemoveFile { path: path@ },
            DiskAction::RemoveTree { path } => ActionView::RemoveTree { path: path@ },
            DiskAction::Sync { path } => ActionView::Sync { path: path@ },
            DiskAction::Record { path, journal } => ActionView::Record {
                path: path@,
                journal: journal@,
            },
        }
    }
}

/// What came of it. A failure says why; a probe that found a directory says so.
#[derive(Debug)]
pub enum DiskEvent {
    Done,
    Directory,
    Missing(String),
    Failed(String),
}

#[verifier::ext_equal]
pub enum EventView {
    Done,
    Directory,
    Missing(Seq<char>),
    Failed(Seq<char>),
}

impl View for DiskEvent {
    type V = EventView;

    open spec fn view(&self) -> EventView {
        match self {
            DiskEvent::Done => EventView::Done,
            DiskEvent::Directory => EventView::Directory,
            DiskEvent::Missing(why) => EventView::Missing(why@),
            DiskEvent::Failed(why) => EventView::Failed(why@),
        }
    }
}

/// Why something was not done, `None` where it was.
pub open spec fn trouble(event: EventView) -> Option<Seq<char>> {
    match event {
        EventView::Done => None,
        EventView::Directory => None,
        EventView::Missing(why) => Some(why),
        EventView::Failed(why) => Some(why),
    }
}

pub(crate) fn trouble_of(event: DiskEvent) -> (why: Option<String>)
    ensures
        crate::text::text_of(why) == trouble(event@),
{
    match event {
        DiskEvent::Done => None,
        DiskEvent::Directory => None,
        DiskEvent::Missing(why) => Some(why),
        DiskEvent::Failed(why) => Some(why),
    }
}

/// Where the original of the image of a number is kept.
pub open spec fn backup_path(staging_dir: Seq<char>, index: int) -> Seq<char> {
    path::placed(staging_dir, "original-"@ + text::decimal(index as nat))
}

pub(crate) fn backup_of(staging_dir: &str, index: usize) -> (path: String)
    ensures
        path@ == backup_path(staging_dir@, index as int),
{
    let mut name: String = "original-".to_owned();
    name.append(spell(index as u64).as_str());
    join(staging_dir, name.as_str())
}

/// A failure with what was attempted on a path.
pub open spec fn attempted(what: Seq<char>, path: Seq<char>, why: Seq<char>) -> Refusal {
    error::refusal(what + path) + error::refusal(why)
}

pub(crate) fn attempt_failed(what: &str, path: &str, why: String) -> (error: Error)
    ensures
        error@ == attempted(what@, path@, why@),
{
    let mut message: String = what.to_owned();
    message.append(path);
    Error::new(why).context(message)
}

/// How far a commit has come.
#[derive(Debug)]
enum CommitStage {
    /// Which images the box already has.
    Survey(usize),
    Record,
    /// What is at the image's path now.
    Check(usize),
    Backup(usize),
    Place(usize),
    Mark,
    /// Going back: the image is taken away, then its original put back.
    Undo(usize, Error),
    Restore(usize, Error),
    Forget(Error),
    Finished(Result<(), Error>),
}

#[verifier::ext_equal]
pub enum CommitStageView {
    Survey(int),
    Record,
    Check(int),
    Backup(int),
    Place(int),
    Mark,
    Undo(int, Refusal),
    Restore(int, Refusal),
    Forget(Refusal),
    Finished(Result<(), Refusal>),
}

impl View for CommitStage {
    type V = CommitStageView;

    closed spec fn view(&self) -> CommitStageView {
        match self {
            CommitStage::Survey(i) => CommitStageView::Survey(*i as int),
            CommitStage::Record => CommitStageView::Record,
            CommitStage::Check(i) => CommitStageView::Check(*i as int),
            CommitStage::Backup(i) => CommitStageView::Backup(*i as int),
            CommitStage::Place(i) => CommitStageView::Place(*i as int),
            CommitStage::Mark => CommitStageView::Mark,
            CommitStage::Undo(k, error) => CommitStageView::Undo(*k as int, error@),
            CommitStage::Restore(k, error) => CommitStageView::Restore(*k as int, error@),
            CommitStage::Forget(error) => CommitStageView::Forget(error@),
            CommitStage::Finished(Ok(())) => CommitStageView::Finished(Ok(())),
            CommitStage::Finished(Err(error)) => CommitStageView::Finished(Err(error@)),
        }
    }
}

/// Puts staged images in place. Each image has a path and the path it was
/// staged at.
#[derive(Debug)]
pub struct Commit {
    journal: String,
    staging_dir: String,
    staging: String,
    staged: Vec<(String, String)>,
    entries: Vec<ImportEntry>,
    backed: Vec<bool>,
    stage: CommitStage,
}

#[verifier::ext_equal]
pub struct CommitView {
    /// Where the journal lies.
    pub journal: Seq<char>,
    pub staging_dir: Seq<char>,
    /// The last step of the staging directory.
    pub staging: Seq<char>,
    pub staged: Seq<(Seq<char>, Seq<char>)>,
    /// What the survey found so far.
    pub entries: Seq<EntryRecord>,
    /// For each image that was begun, whether an original is kept.
    pub backed: Seq<bool>,
    pub stage: CommitStageView,
}

/// What a list of paths with their staged ones shows.
pub open spec fn pairs(staged: Seq<(String, String)>) -> Seq<(Seq<char>, Seq<char>)> {
    Seq::new(staged.len(), |i: int| (staged[i].0@, staged[i].1@))
}

impl View for Commit {
    type V = CommitView;

    closed spec fn view(&self) -> CommitView {
        CommitView {
            journal: self.journal@,
            staging_dir: self.staging_dir@,
            staging: self.staging@,
            staged: pairs(self.staged@),
            entries: records(self.entries@),
            backed: self.backed@,
            stage: self.stage@,
        }
    }
}

/// Whether a commit is in a state it can be in.
pub open spec fn commit_stands(m: CommitView) -> bool {
    let n = m.staged.len();
    match m.stage {
        CommitStageView::Survey(i) => i == m.entries.len() && i < n,
        CommitStageView::Record => m.entries.len() == n && n > 0,
        CommitStageView::Check(i) => m.entries.len() == n && 0 <= i < n && m.backed.len() == i,
        CommitStageView::Backup(i) => m.entries.len() == n && 0 <= i < n && m.backed.len() == i,
        CommitStageView::Place(i) => m.entries.len() == n && 0 <= i < n && m.backed.len() == i + 1,
        CommitStageView::Mark => m.entries.len() == n && m.backed.len() == n,
        CommitStageView::Undo(k, _) => m.entries.len() == n && 0 <= k < m.backed.len() <= n,
        CommitStageView::Restore(k, _) => m.entries.len() == n && 0 <= k < m.backed.len() <= n
            && m.backed[k],
        CommitStageView::Forget(_) => m.entries.len() == n && m.backed.len() <= n,
        CommitStageView::Finished(_) => true,
    }
}

/// What a commit records.
pub open spec fn commit_record(m: CommitView, committed: bool) -> JournalView {
    JournalView { staging: m.staging, entries: m.entries, committed }
}

/// What a commit asks for; `None` once it is over.
pub open spec fn commit_asks(m: CommitView) -> Option<ActionView> {
    match m.stage {
        CommitStageView::Survey(i) => Some(ActionView::Probe { path: m.staged[i].0 }),
        CommitStageView::Record => Some(
            ActionView::Record { path: m.journal, journal: commit_record(m, false) },
        ),
        CommitStageView::Check(i) => Some(ActionView::Probe { path: m.staged[i].0 }),
        CommitStageView::Backup(i) => Some(
            ActionView::Rename { from: m.staged[i].0, to: backup_path(m.staging_dir, i) },
        ),
        CommitStageView::Place(i) => Some(
            ActionView::Rename { from: m.staged[i].1, to: m.staged[i].0 },
        ),
        CommitStageView::Mark => Some(
            ActionView::Record { path: m.journal, journal: commit_record(m, true) },
        ),
        CommitStageView::Undo(k, _) => Some(ActionView::RemoveFile { path: m.staged[k].0 }),
        CommitStageView::Restore(k, _) => Some(
            ActionView::Rename { from: backup_path(m.staging_dir, k), to: m.staged[k].0 },
        ),
        CommitStageView::Forget(_) => Some(ActionView::RemoveFile { path: m.journal }),
        CommitStageView::Finished(_) => None,
    }
}

/// A commit that ends.
pub open spec fn commit_ends(m: CommitView, result: Result<(), Refusal>) -> CommitView {
    CommitView { stage: CommitStageView::Finished(result), ..m }
}

/// A commit that goes back: over the images it began, the last one first.
pub open spec fn commit_fails(m: CommitView, error: Refusal) -> CommitView {
    let stage = if m.backed.len() == 0 {
        CommitStageView::Forget(error)
    } else {
        CommitStageView::Undo(m.backed.len() - 1, error)
    };
    CommitView { stage, ..m }
}

/// A commit that has gone back over the image of a number.
pub open spec fn commit_undid(m: CommitView, k: int, error: Refusal) -> CommitView {
    let stage = if k == 0 {
        CommitStageView::Forget(error)
    } else {
        CommitStageView::Undo(k - 1, error)
    };
    CommitView { stage, ..m }
}

/// What a commit becomes once it is told what came of what it asked for.
pub open spec fn commit_after(m: CommitView, event: EventView) -> CommitView {
    let n = m.staged.len();
    match m.stage {
        CommitStageView::Survey(i) => {
            let path = m.staged[i].0;
            match event {
                EventView::Failed(why) => commit_ends(m, Err(attempted("reading "@, path, why))),
                _ => match path::file_name(path) {
                    None => commit_ends(m, Err(error::refusal("image has no name"@))),
                    Some(image) => CommitView {
                        entries: m.entries.push(EntryRecord { image, existed: event is Done }),
                        stage: if i + 1 < n {
                            CommitStageView::Survey(i + 1)
                        } else {
                            CommitStageView::Record
                        },
                        ..m
                    },
                },
            }
        },
        CommitStageView::Record => match trouble(event) {
            Some(why) => commit_ends(m, Err(attempted("recording "@, m.journal, why))),
            None => CommitView { backed: Seq::empty(), stage: CommitStageView::Check(0), ..m },
        },
        CommitStageView::Check(i) => {
            let path = m.staged[i].0;
            match event {
                EventView::Done => CommitView { stage: CommitStageView::Backup(i), ..m },
                EventView::Directory => commit_fails(
                    m,
                    error::refusal("image "@ + path + " is a directory"@),
                ),
                EventView::Missing(_) => CommitView {
                    backed: m.backed.push(false),
                    stage: CommitStageView::Place(i),
                    ..m
                },
                EventView::Failed(why) => commit_fails(m, attempted("reading "@, path, why)),
            }
        },
        CommitStageView::Backup(i) => match trouble(event) {
            Some(why) => commit_fails(m, attempted("backing up "@, m.staged[i].0, why)),
            None => CommitView {
                backed: m.backed.push(true),
                stage: CommitStageView::Place(i),
                ..m
            },
        },
        CommitStageView::Place(i) => match trouble(event) {
            Some(why) => commit_fails(m, attempted("restoring "@, m.staged[i].0, why)),
            None => CommitView {
                stage: if i + 1 < n {
                    CommitStageView::Check(i + 1)
                } else {
                    CommitStageView::Mark
                },
                ..m
            },
        },
        CommitStageView::Mark => match trouble(event) {
            Some(why) => commit_ends(m, Err(attempted("recording "@, m.journal, why))),
            None => commit_ends(m, Ok(())),
        },
        CommitStageView::Undo(k, error) => match event {
            EventView::Failed(why) => commit_ends(
                m,
                Err(
                    error::refusal(
                        "rollback could not remove "@ + m.staged[k].0 + ": "@ + why
                            + "; original images remain in the import staging directory"@,
                    ) + error,
                ),
            ),
            _ => if m.backed[k] {
                CommitView { stage: CommitStageView::Restore(k, error), ..m }
            } else {
                commit_undid(m, k, error)
            },
        },
        CommitStageView::Restore(k, error) => match trouble(event) {
            Some(why) => commit_ends(
                m,
                Err(
                    error::refusal(
                        text::joined(error, ": "@) + "; rollback failed: restore "@ + m.staged[k].0
                            + " from "@ + backup_path(m.staging_dir, k),
                    ) + error::refusal(why),
                ),
            ),
            None => commit_undid(m, k, error),
        },
        CommitStageView::Forget(error) => commit_ends(m, Err(error)),
        CommitStageView::Finished(_) => m,
    }
}

/// Where a commit of images staged in a directory starts, or why there is none.
pub open spec fn commit_of(
    dir: Seq<char>,
    staging_dir: Seq<char>,
    staged: Seq<(Seq<char>, Seq<char>)>,
) -> Result<CommitView, Refusal> {
    let name = path::file_name(staging_dir);
    if staged.len() == 0 {
        Err(error::refusal("import has no staged images"@))
    } else if name is None || !text::begins_with(name->0, ".import."@) {
        Err(error::refusal("import staging directory has an invalid name"@))
    } else {
        Ok(
            CommitView {
                journal: path::placed(dir, IMPORT_JOURNAL@),
                staging_dir,
                staging: name->0,
                staged,
                entries: Seq::empty(),
                backed: Seq::empty(),
                stage: CommitStageView::Survey(0),
            },
        )
    }
}

impl Commit {
    #[verifier::type_invariant]
    closed spec fn stands(&self) -> bool {
        commit_stands(self@)
    }

    /// A commit of images staged in a directory, or why there is none.
    pub fn start(dir: &str, staging_dir: &str, staged: Vec<(String, String)>) -> (begun: Result<
        Commit,
        Error,
    >)
        ensures
            match commit_of(dir@, staging_dir@, pairs(staged@)) {
                Ok(expected) => begun is Ok && begun->Ok_0@ == expected,
                Err(error) => begun is Err && begun->Err_0@ == error,
            },
    {
        if staged.len() == 0 {
            return Err(refuse("import has no staged images"));
        }
        match file_name_of(staging_dir) {
            Some(staging) => {
                if !starts_with(staging.as_str(), ".import.") {
                    return Err(refuse("import staging directory has an invalid name"));
                }
                let entries: Vec<ImportEntry> = Vec::new();
                proof {
                    assert(records(entries@) =~= Seq::<EntryRecord>::empty());
                }
                Ok(
                    Commit {
                        journal: join(dir, IMPORT_JOURNAL),
                        staging_dir: staging_dir.to_owned(),
                        staging,
                        staged,
                        entries,
                        backed: Vec::new(),
                        stage: CommitStage::Survey(0),
                    },
                )
            },
            None => Err(refuse("import staging directory has an invalid name")),
        }
    }

    fn record(&self, committed: bool) -> (action: DiskAction)
        ensures
            action@ == (ActionView::Record {
                path: self@.journal,
                journal: commit_record(self@, committed),
            }),
    {
        DiskAction::Record {
            path: self.journal.as_str().to_owned(),
            journal: ImportJournal {
                staging: self.staging.as_str().to_owned(),
                entries: copy_entries(&self.entries),
                committed,
            },
        }
    }

    /// What is to be done next.
    pub fn next(&self) -> (action: Option<DiskAction>)
        ensures
            match commit_asks(self@) {
                Some(asked) => action is Some && action->0@ == asked,
                None => action is None,
            },
    {
        proof {
            use_type_invariant(self);
        }
        match &self.stage {
            CommitStage::Survey(i) => Some(
                DiskAction::Probe { path: self.staged[*i].0.as_str().to_owned() },
            ),
            CommitStage::Record => Some(self.record(false)),
            CommitStage::Check(i) => Some(
                DiskAction::Probe { path: self.staged[*i].0.as_str().to_owned() },
            ),
            CommitStage::Backup(i) => Some(
                DiskAction::Rename {
                    from: self.staged[*i].0.as_str().to_owned(),
                    to: backup_of(self.staging_dir.as_str(), *i),
                },
            ),
            CommitStage::Place(i) => Some(
                DiskAction::Rename {
                    from: self.staged[*i].1.as_str().to_owned(),
                    to: self.staged[*i].0.as_str().to_owned(),
                },
            ),
            CommitStage::Mark => Some(self.record(true)),
            CommitStage::Undo(k, _) => Some(
                DiskAction::RemoveFile { path: self.staged[*k].0.as_str().to_owned() },
            ),
            CommitStage::Restore(k, _) => Some(
                DiskAction::Rename {
                    from: backup_of(self.staging_dir.as_str(), *k),
                    to: self.staged[*k].0.as_str().to_owned(),
                },
            ),
            CommitStage::Forget(_) => Some(
                DiskAction::RemoveFile { path: self.journal.as_str().to_owned() },
            ),
            CommitStage::Finished(_) => None,
        }
    }

    fn at(
        journal: String,
        staging_dir: String,
        staging: String,
        staged: Vec<(String, String)>,
        entries: Vec<ImportEntry>,
        backed: Vec<bool>,
        stage: CommitStage,
    ) -> (next: Commit)
        requires
            commit_stands(
                CommitView {
                    journal: journal@,
                    staging_dir: staging_dir@,
                    staging: staging@,
                    staged: pairs(staged@),
                    entries: records(entries@),
                    backed: backed@,
                    stage: stage@,
                },
            ),
        ensures
            next@ == (CommitView {
                journal: journal@,
                staging_dir: staging_dir@,
                staging: staging@,
                staged: pairs(staged@),
                entries: records(entries@),
                backed: backed@,
                stage: stage@,
            }),
    {
        Commit { journal, staging_dir, staging, staged, entries, backed, stage }
    }

    /// The stage a failure leads to, with so many images begun.
    fn failing(begun: usize, error: Error) -> (stage: CommitStage)
        ensures
            stage@ == (if begun == 0 {
                CommitStageView::Forget(error@)
            } else {
                CommitStageView::Undo(begun - 1, error@)
            }),
    {
        if begun == 0 {
            CommitStage::Forget(error)
        } else {
            CommitStage::Undo(begun - 1, error)
        }
    }

    /// The commit once it is told what came of what it asked for.
    pub fn advance(self, event: DiskEvent) -> (next: Commit)
        ensures
            next@ == commit_after(self@, event@),
    {
        proof {
            use_type_invariant(&self);
        }
        let ghost was = self@;
        let journal = self.journal;
        let staging_dir = self.staging_dir;
        let staging = self.staging;
        let staged = self.staged;
        let mut entries = self.entries;
        let mut backed = self.backed;
        let n: usize = staged.len();
        let stage = match self.stage {
            CommitStage::Survey(i) => {
                let path = staged[i].0.as_str();
                let existed = matches!(event, DiskEvent::Done);
                match event {
                    DiskEvent::Failed(why) => CommitStage::Finished(
                        Err(attempt_failed("reading ", path, why)),
                    ),
                    _ => match file_name_of(path) {
                        None => CommitStage::Finished(Err(refuse("image has no name"))),
                        Some(image) => {
                            let ghost before = entries@;
                            entries.push(ImportEntry { image, existed });
                            proof {
                                assert(records(entries@) =~= records(before).push(
                                    entries@.last()@,
                                ));
                            }
                            if i + 1 < n {
                                CommitStage::Survey(i + 1)
                            } else {
                                CommitStage::Record
                            }
                        },
                    },
                }
            },
            CommitStage::Record => match trouble_of(event) {
                Some(why) => CommitStage::Finished(
                    Err(attempt_failed("recording ", journal.as_str(), why)),
                ),
                None => {
                    backed = Vec::new();
                    CommitStage::Check(0)
                },
            },
            CommitStage::Check(i) => {
                let path = staged[i].0.as_str();
                match event {
                    DiskEvent::Done => CommitStage::Backup(i),
                    DiskEvent::Directory => {
                        let mut message: String = "image ".to_owned();
                        message.append(path);
                        message.append(" is a directory");
                        Commit::failing(backed.len(), Error::new(message))
                    },
                    DiskEvent::Missing(_) => {
                        backed.push(false);
                        CommitStage::Place(i)
                    },
                    DiskEvent::Failed(why) => Commit::failing(
                        backed.len(),
                        attempt_failed("reading ", path, why),
                    ),
                }
            },
            CommitStage::Backup(i) => match trouble_of(event) {
                Some(why) => Commit::failing(
                    backed.len(),
                    attempt_failed("backing up ", staged[i].0.as_str(), why),
                ),
                None => {
                    backed.push(true);
                    CommitStage::Place(i)
                },
            },
            CommitStage::Place(i) => match trouble_of(event) {
                Some(why) => Commit::failing(
                    backed.len(),
                    attempt_failed("restoring ", staged[i].0.as_str(), why),
                ),
                None => if i + 1 < n {
                    CommitStage::Check(i + 1)
                } else {
                    CommitStage::Mark
                },
            },
            CommitStage::Mark => match trouble_of(event) {
                Some(why) => CommitStage::Finished(
                    Err(attempt_failed("recording ", journal.as_str(), why)),
                ),
                None => CommitStage::Finished(Ok(())),
            },
            CommitStage::Undo(k, error) => match event {
                DiskEvent::Failed(why) => {
                    let mut message: String = "rollback could not remove ".to_owned();
                    message.append(staged[k].0.as_str());
                    message.append(": ");
                    message.append(why.as_str());
                    message.append("; original images remain in the import staging directory");
                    CommitStage::Finished(Err(error.context(message)))
                },
                _ => if backed[k] {
                    CommitStage::Restore(k, error)
                } else {
                    Commit::failing(k, error)
                },
            },
            CommitStage::Restore(k, error) => match trouble_of(event) {
                Some(why) => {
                    let mut message: String = error.full_message();
                    message.append("; rollback failed: restore ");
                    message.append(staged[k].0.as_str());
                    message.append(" from ");
                    message.append(backup_of(staging_dir.as_str(), k).as_str());
                    CommitStage::Finished(Err(Error::new(why).context(message)))
                },
                None => Commit::failing(k, error),
            },
            CommitStage::Forget(error) => CommitStage::Finished(Err(error)),
            CommitStage::Finished(result) => CommitStage::Finished(result),
        };
        Commit::at(journal, staging_dir, staging, staged, entries, backed, stage)
    }

    /// Whether the commit has ended, one way or the other.
    pub fn is_over(&self) -> (yes: bool)
        ensures
            yes == (self@.stage is Finished),
    {
        matches!(self.stage, CommitStage::Finished(_))
    }

    /// How the commit ended; `None` while it is under way.
    pub fn into_result(self) -> (result: Option<Result<(), Error>>)
        ensures
            match self@.stage {
                CommitStageView::Finished(Ok(())) => result is Some && result->0 is Ok,
                CommitStageView::Finished(Err(error)) => result is Some && result->0 is Err
                    && result->0->Err_0@ == error,
                _ => result is None,
            },
    {
        match self.stage {
            CommitStage::Finished(result) => Some(result),
            _ => None,
        }
    }
}

} // verus!
