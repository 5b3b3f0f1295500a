//! Going back, or finishing, from wherever an import stopped.

use crate::error::{self, Error, Refusal, refuse};
use crate::path::{self, join};
use crate::state::{self, BoxRef, BoxView};
use crate::storage::journal::{
    self, ActionView, DiskAction, DiskEvent, EventView, IMPORT_JOURNAL, ImportJournal, JournalView,
    attempt_failed, backup_of, trouble_of,
};
use crate::text::{self, contains_char, same_text, starts_with};
use vstd::prelude::*;

verus! {

/// What came of reading the journal.
#[derive(Debug)]
pub enum JournalRead {
    Missing,
    Unreadable(String),
    Malformed(String),
    Found(ImportJournal),
}

#[verifier::ext_equal]
pub enum JournalReadView {
    Missing,
    Unreadable(Seq<char>),
    Malformed(Seq<char>),
    Found(JournalView),
}

impl View for JournalRead {
    type V = JournalReadView;

    open spec fn view(&self) -> JournalReadView {
        match self {
            JournalRead::Missing => JournalReadView::Missing,
            JournalRead::Unreadable(why) => JournalReadView::Unreadable(why@),
            JournalRead::Malformed(why) => JournalReadView::Malformed(why@),
            JournalRead::Found(record) => JournalReadView::Found(record@),
        }
    }
}

/// How far a recovery has come.
#[derive(Debug)]
enum RecoverStage {
    /// All images are in place: the stamp of a baked root goes with its image.
    Stamp,
    Sync,
    /// Whether an original is kept for the image.
    Probe(usize),
    Clear(usize),
    Restore(usize),
    /// Whether a new image was still staged.
    ProbeStaged(usize),
    Discard(usize),
    Staging,
    Journal,
    Finished(Result<(), Error>),
}

#[verifier::ext_equal]
pub enum RecoverStageView {
    Stamp,
    Sync,
    Probe(int),
    Clear(int),
    Restore(int),
    ProbeStaged(int),
    Discard(int),
    Staging,
    Journal,
    Finished(Result<(), Refusal>),
}

impl View for RecoverStage {
    type V = RecoverStageView;

    closed spec fn view(&self) -> RecoverStageView {
        match self {
            RecoverStage::Stamp => RecoverStageView::Stamp,
            RecoverStage::Sync => RecoverStageView::Sync,
            RecoverStage::Probe(i) => RecoverStageView::Probe(*i as int),
            RecoverStage::Clear(i) => RecoverStageView::Clear(*i as int),
            RecoverStage::Restore(i) => RecoverStageView::Restore(*i as int),
            RecoverStage::ProbeStaged(i) => RecoverStageView::ProbeStaged(*i as int),
            RecoverStage::Discard(i) => RecoverStageView::Discard(*i as int),
            RecoverStage::Staging => RecoverStageView::Staging,
            RecoverStage::Journal => RecoverStageView::Journal,
            RecoverStage::Finished(Ok(())) => RecoverStageView::Finished(Ok(())),
            RecoverStage::Finished(Err(error)) => RecoverStageView::Finished(Err(error@)),
        }
    }
}

/// Brings the images of a box back to what they were before an import that
/// stopped, or sweeps up behind one that was through.
#[derive(Debug)]
pub struct Recover {
    bx: BoxRef,
    stamp: String,
    record: ImportJournal,
    stage: RecoverStage,
}

#[verifier::ext_equal]
pub struct RecoverView {
    pub bx: BoxView,
    /// The stamp of a baked root.
    pub stamp: Seq<char>,
    pub record: JournalView,
    pub stage: RecoverStageView,
}

impl View for Recover {
    type V = RecoverView;

    closed spec fn view(&self) -> RecoverView {
        RecoverView {
            bx: self.bx@,
            stamp: self.stamp@,
            record: self.record@,
            stage: self.stage@,
        }
    }
}

/// Where an import is staged.
pub open spec fn staging_of(m: RecoverView) -> Seq<char> {
    path::placed(m.bx.dir, m.record.staging)
}

/// Whether a recovery is in a state it can be in.
pub open spec fn recover_stands(m: RecoverView) -> bool {
    let entries = m.record.entries;
    match m.stage {
        RecoverStageView::Probe(i) => 0 <= i < entries.len() && state::named_image(
            m.bx,
            entries[i].image,
        ) is Some,
        RecoverStageView::Clear(i) => 0 <= i < entries.len() && state::named_image(
            m.bx,
            entries[i].image,
        ) is Some,
        RecoverStageView::Restore(i) => 0 <= i < entries.len() && state::named_image(
            m.bx,
            entries[i].image,
        ) is Some,
        RecoverStageView::ProbeStaged(i) => 0 <= i < entries.len() && state::named_image(
            m.bx,
            entries[i].image,
        ) is Some,
        RecoverStageView::Discard(i) => 0 <= i < entries.len() && state::named_image(
            m.bx,
            entries[i].image,
        ) is Some,
        _ => true,
    }
}

/// The path of the image of an entry.
pub open spec fn entry_path(m: RecoverView, i: int) -> Seq<char> {
    state::named_image(m.bx, m.record.entries[i].image)->0
}

/// What a recovery asks for; `None` once it is over.
pub open spec fn recover_asks(m: RecoverView) -> Option<ActionView> {
    match m.stage {
        RecoverStageView::Stamp => Some(ActionView::RemoveFile { path: m.stamp }),
        RecoverStageView::Sync => Some(ActionView::Sync { path: m.bx.dir }),
        RecoverStageView::Probe(i) => Some(
            ActionView::Probe { path: journal::backup_path(staging_of(m), i) },
        ),
        RecoverStageView::Clear(i) => Some(ActionView::RemoveFile { path: entry_path(m, i) }),
        RecoverStageView::Restore(i) => Some(
            ActionView::Rename { from: journal::backup_path(staging_of(m), i), to: entry_path(m, i) },
        ),
        RecoverStageView::ProbeStaged(i) => Some(
            ActionView::Follow { path: path::placed(staging_of(m), m.record.entries[i].image) },
        ),
        RecoverStageView::Discard(i) => Some(ActionView::RemoveFile { path: entry_path(m, i) }),
        RecoverStageView::Staging => Some(ActionView::RemoveTree { path: staging_of(m) }),
        RecoverStageView::Journal => Some(
            ActionView::RemoveFile { path: path::placed(m.bx.dir, IMPORT_JOURNAL@) },
        ),
        RecoverStageView::Finished(_) => None,
    }
}

pub open spec fn recover_at(m: RecoverView, stage: RecoverStageView) -> RecoverView {
    RecoverView { stage, ..m }
}

pub open spec fn recover_ends(m: RecoverView, error: Refusal) -> RecoverView {
    recover_at(m, RecoverStageView::Finished(Err(error)))
}

/// A recovery that turns to the entry of a number, or is through with them.
pub open spec fn recover_from(m: RecoverView, i: int) -> RecoverView {
    if i >= m.record.entries.len() {
        recover_at(m, RecoverStageView::Staging)
    } else if state::named_image(m.bx, m.record.entries[i].image) is None {
        recover_ends(m, error::refusal("import recovery journal names an invalid image"@))
    } else {
        recover_at(m, RecoverStageView::Probe(i))
    }
}

/// What a recovery becomes once it is told what came of what it asked for.
pub open spec fn recover_after(m: RecoverView, event: EventView) -> RecoverView {
    match m.stage {
        RecoverStageView::Stamp => match event {
            EventView::Failed(why) => recover_ends(m, journal::attempted("removing "@, m.stamp, why)),
            _ => recover_at(m, RecoverStageView::Sync),
        },
        RecoverStageView::Sync => match journal::trouble(event) {
            Some(why) => recover_ends(m, error::refusal(why)),
            None => recover_at(m, RecoverStageView::Staging),
        },
        RecoverStageView::Probe(i) => match event {
            EventView::Failed(why) => recover_ends(
                m,
                journal::attempted("reading "@, journal::backup_path(staging_of(m), i), why),
            ),
            _ => if !m.record.entries[i].existed {
                recover_at(m, RecoverStageView::ProbeStaged(i))
            } else if event is Missing {
                recover_from(m, i + 1)
            } else {
                recover_at(m, RecoverStageView::Clear(i))
            },
        },
        RecoverStageView::Clear(i) => match event {
            EventView::Failed(why) => recover_ends(
                m,
                journal::attempted("removing "@, entry_path(m, i), why),
            ),
            _ => recover_at(m, RecoverStageView::Restore(i)),
        },
        RecoverStageView::Restore(i) => match journal::trouble(event) {
            Some(why) => recover_ends(m, error::refusal(why)),
            None => recover_from(m, i + 1),
        },
        RecoverStageView::ProbeStaged(i) => match journal::trouble(event) {
            Some(_) => recover_at(m, RecoverStageView::Discard(i)),
            None => recover_from(m, i + 1),
        },
        RecoverStageView::Discard(i) => match event {
            EventView::Failed(why) => recover_ends(
                m,
                journal::attempted("removing "@, entry_path(m, i), why),
            ),
            _ => recover_from(m, i + 1),
        },
        RecoverStageView::Staging => match event {
            EventView::Failed(why) => recover_ends(m, journal::attempted("removing "@, staging_of(m), why)),
            _ => recover_at(m, RecoverStageView::Journal),
        },
        RecoverStageView::Journal => match journal::trouble(event) {
            Some(why) => recover_ends(
                m,
                error::refusal("removing import recovery journal"@) + error::refusal(why),
            ),
            None => recover_at(m, RecoverStageView::Finished(Ok(()))),
        },
        RecoverStageView::Finished(_) => m,
    }
}

/// Whether an import brought a root image.
pub open spec fn brings_rootfs(record: JournalView) -> bool {
    exists|i: int| 0 <= i < record.entries.len() && #[trigger] record.entries[i].image
        == "rootfs.img"@
}

/// Whether a journal names a staging directory of an import.
pub open spec fn names_staging(staging: Seq<char>) -> bool {
    text::begins_with(staging, ".import."@) && !staging.contains('/') && !staging.contains('\\')
}

/// Where a recovery starts.
pub open spec fn recover_start(bx: BoxView, stamp: Seq<char>, record: JournalView) -> RecoverView {
    let m = RecoverView { bx, stamp, record, stage: RecoverStageView::Staging };
    if !record.committed {
        recover_from(m, 0)
    } else if brings_rootfs(record) {
        recover_at(m, RecoverStageView::Stamp)
    } else {
        m
    }
}

/// The recovery a box needs by what reading its journal said: none where there
/// is no journal.
pub open spec fn recovery_of(bx: BoxView, stamp: Seq<char>, read: JournalReadView) -> Result<
    Option<RecoverView>,
    Refusal,
> {
    match read {
        JournalReadView::Missing => Ok(None),
        JournalReadView::Unreadable(why) => Err(
            journal::attempted("reading "@, path::placed(bx.dir, IMPORT_JOURNAL@), why),
        ),
        JournalReadView::Malformed(why) => Err(
            error::refusal("reading import recovery journal"@) + error::refusal(why),
        ),
        JournalReadView::Found(record) => if names_staging(record.staging) {
            Ok(Some(recover_start(bx, stamp, record)))
        } else {
            Err(error::refusal("import recovery journal has an invalid staging directory"@))
        },
    }
}

fn has_rootfs(record: &ImportJournal) -> (yes: bool)
    ensures
        yes == brings_rootfs(record@),
{
    let mut i: usize = 0;
    while i < record.entries.len()
        invariant
            i <= record.entries@.len(),
            forall|k: int|
                0 <= k < i ==> #[trigger] record@.entries[k].image != "rootfs.img"@,
        decreases record.entries.len() - i,
    {
        if same_text(record.entries[i].image.as_str(), crate::state::ROOTFS_FILE) {
            proof {
                assert(record@.entries[i as int].image == "rootfs.img"@);
            }
            return true;
        }
        i = i + 1;
    }
    false
}

impl Recover {
    #[verifier::type_invariant]
    closed spec fn stands(&self) -> bool {
        recover_stands(self@)
    }

    /// The recovery a box needs: none where no import left a journal.
    pub fn start(bx: &BoxRef, stamp: &str, read: JournalRead) -> (begun: Result<
        Option<Recover>,
        Error,
    >)
        ensures
            match recovery_of(bx@, stamp@, read@) {
                Ok(Some(expected)) => begun is Ok && begun->Ok_0 is Some && begun->Ok_0->0@
                    == expected,
                Ok(None) => begun == Ok::<Option<Recover>, Error>(None),
                Err(error) => begun is Err && begun->Err_0@ == error,
            },
    {
        let record = match read {
            JournalRead::Missing => {
                return Ok(None);
            },
            JournalRead::Unreadable(why) => {
                let journal = join(bx.dir(), IMPORT_JOURNAL);
                return Err(attempt_failed("reading ", journal.as_str(), why));
            },
            JournalRead::Malformed(why) => {
                return Err(
                    Error::new(why).context("reading import recovery journal".to_owned()),
                );
            },
            JournalRead::Found(record) => record,
        };
        let staging = record.staging.as_str();
        if !starts_with(staging, ".import.") || contains_char(staging, '/') || contains_char(
            staging,
            '\\',
        ) {
            return Err(refuse("import recovery journal has an invalid staging directory"));
        }
        let stage = if !record.committed {
            Recover::entry(bx, &record, 0)
        } else if has_rootfs(&record) {
            RecoverStage::Stamp
        } else {
            RecoverStage::Staging
        };
        Ok(Some(Recover { bx: bx.copy(), stamp: stamp.to_owned(), record, stage }))
    }

    /// The stage at which the entry of a number is turned to.
    fn entry(bx: &BoxRef, record: &ImportJournal, i: usize) -> (stage: RecoverStage)
        ensures
            stage@ == (if i >= record@.entries.len() {
                RecoverStageView::Staging
            } else if state::named_image(bx@, record@.entries[i as int].image) is None {
                RecoverStageView::Finished(
                    Err(error::refusal("import recovery journal names an invalid image"@)),
                )
            } else {
                RecoverStageView::Probe(i as int)
            }),
    {
        if i >= record.entries.len() {
            return RecoverStage::Staging;
        }
        match bx.image_named(record.entries[i].image.as_str()) {
            Some(_) => RecoverStage::Probe(i),
            None => RecoverStage::Finished(
                Err(refuse("import recovery journal names an invalid image")),
            ),
        }
    }

    fn path_of(&self, i: usize) -> (path: String)
        requires
            i < self@.record.entries.len(),
            state::named_image(self@.bx, self@.record.entries[i as int].image) is Some,
        ensures
            path@ == entry_path(self@, i as int),
    {
        match self.bx.image_named(self.record.entries[i].image.as_str()) {
            Some(path) => path,
            None => String::new(),
        }
    }

    fn staging(&self) -> (path: String)
        ensures
            path@ == staging_of(self@),
    {
        join(self.bx.dir(), self.record.staging.as_str())
    }

    /// What is to be done next.
    pub fn next(&self) -> (action: Option<DiskAction>)
        ensures
            match recover_asks(self@) {
                Some(asked) => action is Some && action->0@ == asked,
                None => action is None,
            },
    {
        proof {
            use_type_invariant(self);
        }
        match &self.stage {
            RecoverStage::Stamp => Some(
                DiskAction::RemoveFile { path: self.stamp.as_str().to_owned() },
            ),
            RecoverStage::Sync => Some(DiskAction::Sync { path: self.bx.dir().to_owned() }),
            RecoverStage::Probe(i) => Some(
                DiskAction::Probe { path: backup_of(self.staging().as_str(), *i) },
            ),
            RecoverStage::Clear(i) => Some(DiskAction::RemoveFile { path: self.path_of(*i) }),
            RecoverStage::Restore(i) => Some(
                DiskAction::Rename {
                    from: backup_of(self.staging().as_str(), *i),
                    to: self.path_of(*i),
                },
            ),
            RecoverStage::ProbeStaged(i) => Some(
                DiskAction::Follow {
                    path: join(
                        self.staging().as_str(),
                        self.record.entries[*i].image.as_str(),
                    ),
                },
            ),
            RecoverStage::Discard(i) => Some(DiskAction::RemoveFile { path: self.path_of(*i) }),
            RecoverStage::Staging => Some(DiskAction::RemoveTree { path: self.staging() }),
            RecoverStage::Journal => Some(
                DiskAction::RemoveFile { path: join(self.bx.dir(), IMPORT_JOURNAL) },
            ),
            RecoverStage::Finished(_) => None,
        }
    }

    /// The recovery once it is told what came of what it asked for.
    pub fn advance(self, event: DiskEvent) -> (next: Recover)
        ensures
            next@ == recover_after(self@, event@),
    {
        proof {
            use_type_invariant(&self);
            assert(self@.record.entries.len() == self.record.entries.len());
        }
        let stage = match &self.stage {
            RecoverStage::Stamp => match event {
                DiskEvent::Failed(why) => RecoverStage::Finished(
                    Err(attempt_failed("removing ", self.stamp.as_str(), why)),
                ),
                _ => RecoverStage::Sync,
            },
            RecoverStage::Sync => match trouble_of(event) {
                Some(why) => RecoverStage::Finished(Err(Error::new(why))),
                None => RecoverStage::Staging,
            },
            RecoverStage::Probe(i) => {
                let missing = matches!(event, DiskEvent::Missing(_));
                match event {
                    DiskEvent::Failed(why) => {
                        let backup = backup_of(self.staging().as_str(), *i);
                        RecoverStage::Finished(
                            Err(attempt_failed("reading ", backup.as_str(), why)),
                        )
                    },
                    _ => if !self.record.entries[*i].existed {
                        RecoverStage::ProbeStaged(*i)
                    } else if missing {
                        Recover::entry(&self.bx, &self.record, *i + 1)
                    } else {
                        RecoverStage::Clear(*i)
                    },
                }
            },
            RecoverStage::Clear(i) => match event {
                DiskEvent::Failed(why) => RecoverStage::Finished(
                    Err(attempt_failed("removing ", self.path_of(*i).as_str(), why)),
                ),
                _ => RecoverStage::Restore(*i),
            },
            RecoverStage::Restore(i) => match trouble_of(event) {
                Some(why) => RecoverStage::Finished(Err(Error::new(why))),
                None => Recover::entry(&self.bx, &self.record, *i + 1),
            },
            RecoverStage::ProbeStaged(i) => match trouble_of(event) {
                Some(_) => RecoverStage::Discard(*i),
                None => Recover::entry(&self.bx, &self.record, *i + 1),
            },
            RecoverStage::Discard(i) => match event {
                DiskEvent::Failed(why) => RecoverStage::Finished(
                    Err(attempt_failed("removing ", self.path_of(*i).as_str(), why)),
                ),
                _ => Recover::entry(&self.bx, &self.record, *i + 1),
            },
            RecoverStage::Staging => match event {
                DiskEvent::Failed(why) => RecoverStage::Finished(
                    Err(attempt_failed("removing ", self.staging().as_str(), why)),
                ),
                _ => RecoverStage::Journal,
            },
            RecoverStage::Journal => match trouble_of(event) {
                Some(why) => RecoverStage::Finished(
                    Err(Error::new(why).context("removing import recovery journal".to_owned())),
                ),
                None => RecoverStage::Finished(Ok(())),
            },
            RecoverStage::Finished(_) => {
                return self;
            },
        };
        Recover { bx: self.bx, stamp: self.stamp, record: self.record, stage }
    }

    /// Whether the recovery has ended, one way or the other.
    pub fn is_over(&self) -> (yes: bool)
        ensures
            yes == (self@.stage is Finished),
    {
        matches!(self.stage, RecoverStage::Finished(_))
    }

    /// How the recovery ended; `None` while it is under way.
    pub fn into_result(self) -> (result: Option<Result<(), Error>>)
        ensures
            match self@.stage {
                RecoverStageView::Finished(Ok(())) => result is Some && result->0 is Ok,
                RecoverStageView::Finished(Err(error)) => result is Some && result->0 is Err
                    && result->0->Err_0@ == error,
                _ => result is None,
            },
    {
        match self.stage {
            RecoverStage::Finished(result) => Some(result),
            _ => None,
        }
    }
}

} // verus!
