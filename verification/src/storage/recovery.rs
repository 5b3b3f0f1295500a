//! Why an import cannot lose an image: wherever it stops, what is on the disk
//! is enough to bring every original back, and recovery does.

use crate::config::ConfigView;
use crate::path::{self, ComponentView};
use crate::state::{self, BoxView};
use crate::storage::artifact::{self, AdmittedView};
use crate::storage::install::{
    self, InstallEventView, InstallStageView, InstallStepView, InstallView,
};
use crate::storage::journal::{
    self, ActionView, CommitStageView, CommitView, EntryRecord, EventView, IMPORT_JOURNAL,
    JournalView,
};
use crate::storage::recover::{self, JournalReadView, RecoverStageView, RecoverView};
use crate::text;
use vstd::prelude::*;

verus! {

/// The files of a disk, and the journal on it.
#[verifier::ext_equal]
pub struct Disk {
    pub files: Map<Seq<char>, Seq<u8>>,
    pub journal: Option<JournalView>,
}

/// An import: the images a box is given, by name, and where they are staged.
#[verifier::ext_equal]
pub struct ImportView {
    pub bx: BoxView,
    pub staging: Seq<char>,
    pub images: Seq<Seq<char>>,
    /// The stamp of a baked root.
    pub stamp: Seq<char>,
}

pub open spec fn image_at(x: ImportView, i: int) -> Seq<char> {
    path::placed(x.bx.dir, x.images[i])
}

pub open spec fn staging_at(x: ImportView) -> Seq<char> {
    path::placed(x.bx.dir, x.staging)
}

pub open spec fn staged_at(x: ImportView, i: int) -> Seq<char> {
    path::placed(staging_at(x), x.images[i])
}

pub open spec fn kept_at(x: ImportView, i: int) -> Seq<char> {
    journal::backup_path(staging_at(x), i)
}

pub open spec fn journal_at(x: ImportView) -> Seq<char> {
    path::placed(x.bx.dir, IMPORT_JOURNAL@)
}

/// Whether an import names images a box can hold, each once.
pub open spec fn valid_import(x: ImportView) -> bool {
    &&& recover::names_staging(x.staging)
    &&& x.images.len() > 0
    &&& x.images.no_duplicates()
    &&& forall|i: int| 0 <= i < x.images.len() ==> state::named_image(x.bx, #[trigger] x.images[i]) is Some
    &&& forall|i: int| 0 <= i < x.images.len() ==> #[trigger] image_at(x, i) != x.stamp
    &&& x.stamp != journal_at(x)
}

/// The images an artifact was admitted with are such that their import loses
/// nothing.
pub proof fn admitted_images_make_an_import(
    bx: BoxView,
    cfg: ConfigView,
    admitted: AdmittedView,
    staging: Seq<char>,
    stamp: Seq<char>,
)
    requires
        artifact::fit(bx, cfg, admitted),
        admitted.names.len() > 0,
        recover::names_staging(staging),
        forall|i: int|
            0 <= i < admitted.names.len() ==> path::placed(bx.dir, #[trigger] admitted.names[i])
                != stamp,
        stamp != path::placed(bx.dir, IMPORT_JOURNAL@),
    ensures
        valid_import(ImportView { bx, staging, images: admitted.names, stamp }),
{
    let x = ImportView { bx, staging, images: admitted.names, stamp };
    assert forall|i: int| 0 <= i < x.images.len() implies #[trigger] image_at(x, i) != x.stamp by {
        assert(path::placed(bx.dir, admitted.names[i]) != stamp);
    }
}

/// What becomes of a disk: what a successful action does to it, and that one
/// that was not done leaves it alone, but for a tree that may be half removed.
/// A probe finds what is there, and nothing but files is staged, so that
/// following a link makes no difference there.
pub open spec fn happens(
    x: ImportView,
    before: Disk,
    action: ActionView,
    event: EventView,
    after: Disk,
) -> bool {
    match action {
        ActionView::Probe { path } => {
            &&& after == before
            &&& event is Done ==> before.files.contains_key(path)
            &&& event is Missing || event is Directory ==> !before.files.contains_key(path)
            &&& event is Directory ==> !path::lies_under(path, staging_at(x))
        },
        ActionView::Follow { path } => {
            &&& after == before
            &&& journal::trouble(event) is None && path::lies_under(path, staging_at(x))
                ==> before.files.contains_key(path)
        },
        ActionView::Rename { from, to } => if journal::trouble(event) is Some {
            after == before
        } else {
            &&& before.files.contains_key(from)
            &&& after.files == before.files.remove(from).insert(to, before.files[from])
            &&& after.journal == before.journal
        },
        ActionView::RemoveFile { path } => if journal::trouble(event) is Some {
            &&& after == before
            &&& event is Missing ==> !before.files.contains_key(path)
        } else {
            &&& after.files == before.files.remove(path)
            &&& after.journal == (if path == journal_at(x) {
                None
            } else {
                before.journal
            })
        },
        ActionView::RemoveTree { path } => {
            &&& after.journal == before.journal
            &&& forall|p: Seq<char>| #[trigger]
                after.files.contains_key(p) ==> before.files.contains_key(p) && after.files[p]
                    == before.files[p]
            &&& forall|p: Seq<char>| #[trigger]
                before.files.contains_key(p) && !path::lies_under(p, path) ==> after.files.contains_key(p)
            &&& !(event is Failed) ==> forall|p: Seq<char>| #[trigger]
                after.files.contains_key(p) ==> !path::lies_under(p, path)
        },
        ActionView::Sync { path } => after == before,
        ActionView::Record { path, journal } => if journal::trouble(event) is Some {
            after == before
        } else {
            after == (Disk { journal: Some(journal), ..before })
        },
    }
}

/// What comes of an action where nothing fails: it is done, or there is nothing
/// to be found or removed. The journal is there, and images are no directories.
pub open spec fn succeeds(x: ImportView, action: ActionView, event: EventView) -> bool {
    match action {
        ActionView::Probe { .. } | ActionView::Follow { .. } | ActionView::RemoveTree { .. } => event is Done
            || event is Missing,
        ActionView::RemoveFile { path } => event is Done || event is Missing && path != journal_at(x),
        _ => event is Done,
    }
}

/// Whether the box had the image when the import began.
pub open spec fn had(x: ImportView, first: Disk, i: int) -> bool {
    first.files.contains_key(image_at(x, i))
}

/// The image is what it was when the import began.
pub open spec fn original(x: ImportView, first: Disk, disk: Disk, i: int) -> bool {
    let path = image_at(x, i);
    if had(x, first, i) {
        disk.files.contains_key(path) && disk.files[path] == first.files[path]
    } else {
        !disk.files.contains_key(path)
    }
}

/// The image is the one that was staged.
pub open spec fn renewed(x: ImportView, first: Disk, disk: Disk, i: int) -> bool {
    let path = image_at(x, i);
    let staged = staged_at(x, i);
    &&& disk.files.contains_key(path)
    &&& first.files.contains_key(staged)
    &&& disk.files[path] == first.files[staged]
}

/// The original of the image is kept.
pub open spec fn kept(x: ImportView, first: Disk, disk: Disk, i: int) -> bool {
    disk.files.contains_key(kept_at(x, i)) && disk.files[kept_at(x, i)]
        == first.files[image_at(x, i)]
}

/// Nothing lies where the original would be kept.
pub open spec fn none_kept(x: ImportView, disk: Disk, i: int) -> bool {
    !disk.files.contains_key(kept_at(x, i))
}

/// The staged image is what it was when the import began.
pub open spec fn still_staged(x: ImportView, first: Disk, disk: Disk, i: int) -> bool {
    let path = staged_at(x, i);
    disk.files.contains_key(path) == first.files.contains_key(path) && (
    first.files.contains_key(path) ==> disk.files[path] == first.files[path])
}

/// The image can be brought back: its original is kept or in place, or there
/// was none and what is in place is no longer staged.
pub open spec fn salvageable(x: ImportView, first: Disk, disk: Disk, i: int) -> bool {
    if had(x, first, i) {
        kept(x, first, disk, i) || original(x, first, disk, i) && none_kept(x, disk, i)
    } else {
        !disk.files.contains_key(image_at(x, i)) || !disk.files.contains_key(staged_at(x, i))
    }
}

/// Whether a journal's entries are those of an import.
pub open spec fn tells(x: ImportView, first: Disk, entries: Seq<EntryRecord>) -> bool {
    forall|i: int|
        0 <= i < entries.len() ==> (#[trigger] entries[i]).image == x.images[i]
            && entries[i].existed == had(x, first, i)
}

/// Whether an import that stops here loses nothing: without a journal, or with
/// one that names no image, every image is the original; with one that says the
/// import is through, every image is the new one; otherwise every original can
/// be brought back.
pub open spec fn recoverable(x: ImportView, first: Disk, disk: Disk) -> bool {
    match disk.journal {
        None => forall|i: int| 0 <= i < x.images.len() ==> #[trigger] original(x, first, disk, i),
        Some(record) => {
            &&& record.staging == x.staging
            &&& if record.entries.len() == 0 {
                !record.committed && forall|i: int|
                    0 <= i < x.images.len() ==> #[trigger] original(x, first, disk, i)
            } else {
                &&& record.entries.len() == x.images.len()
                &&& tells(x, first, record.entries)
                &&& if record.committed {
                    forall|i: int|
                        0 <= i < x.images.len() ==> #[trigger] renewed(x, first, disk, i)
                } else {
                    forall|i: int|
                        0 <= i < x.images.len() ==> #[trigger] salvageable(x, first, disk, i)
                }
            }
        },
    }
}

/// That no two of the paths of an import meet.
spec fn laid_out(x: ImportView) -> bool {
    let n = x.images.len();
    &&& forall|i: int, j: int|
        0 <= i < n && 0 <= j < n && i != j ==> #[trigger] image_at(x, i) != #[trigger] image_at(
            x,
            j,
        )
    &&& forall|i: int, j: int|
        0 <= i < n && 0 <= j < n && i != j ==> #[trigger] staged_at(x, i) != #[trigger] staged_at(
            x,
            j,
        )
    &&& forall|i: int, j: int|
        0 <= i < n && 0 <= j < n && i != j ==> #[trigger] kept_at(x, i) != #[trigger] kept_at(x, j)
    &&& forall|i: int, j: int|
        0 <= i < n && 0 <= j < n ==> #[trigger] image_at(x, i) != #[trigger] kept_at(x, j)
    &&& forall|i: int, j: int|
        0 <= i < n && 0 <= j < n ==> #[trigger] image_at(x, i) != #[trigger] staged_at(x, j)
    &&& forall|i: int, j: int|
        0 <= i < n && 0 <= j < n ==> #[trigger] staged_at(x, i) != #[trigger] kept_at(x, j)
    &&& forall|i: int|
        0 <= i < n ==> !path::lies_under(#[trigger] image_at(x, i), staging_at(x)) && image_at(x, i)
            != journal_at(x) && path::file_name(image_at(x, i)) == Some(x.images[i])
    &&& forall|i: int| 0 <= i < n ==> path::lies_under(#[trigger] kept_at(x, i), staging_at(x))
    &&& forall|i: int| 0 <= i < n ==> path::lies_under(#[trigger] staged_at(x, i), staging_at(x))
}

proof fn lemma_image_name(x: ImportView, i: int)
    requires
        valid_import(x),
        0 <= i < x.images.len(),
    ensures
        path::one_step(x.images[i]),
        x.images[i].len() >= 4,
        x.images[i][0] == 'r' || x.images[i][0] == 'v',
        state::named_image(x.bx, x.images[i]) == Some(image_at(x, i)),
        path::components(image_at(x, i)) == path::components(x.bx.dir).push(
            ComponentView::Normal(x.images[i]),
        ),
{
    let name = x.images[i];
    state::named_images_lie_in_the_box(x.bx, name);
    reveal_strlit("rootfs.img");
    reveal_strlit("vol-");
    reveal_strlit(".img");
    if name != "rootfs.img"@ {
        let volume = name.subrange(4, name.len() - 4);
        assert(name.take(4) == "vol-"@);
        assert(name[0] == name.take(4)[0]);
        assert(name.skip(name.len() - 4) == ".img"@);
        assert(!name.contains('/')) by {
            if name.contains('/') {
                let k = choose|k: int| 0 <= k < name.len() && name[k] == '/';
                if k < 4 {
                    assert(name[k] == name.take(4)[k]);
                } else if k >= name.len() - 4 {
                    assert(name[k] == name.skip(name.len() - 4)[k - (name.len() - 4)]);
                } else {
                    assert(volume[k - 4] == '/');
                    assert(volume.contains('/'));
                }
            }
        }
    }
}

proof fn lemma_kept_name(index: int)
    requires
        0 <= index,
    ensures
        path::one_step("original-"@ + text::decimal(index as nat)),
        ("original-"@ + text::decimal(index as nat))[0] == 'o',
        text::number_of(("original-"@ + text::decimal(index as nat)).skip(9)) == Some(index as nat),
{
    reveal_strlit("original-");
    let name = "original-"@ + text::decimal(index as nat);
    text::lemma_decimal_round_trip(index as nat);
    assert(name.skip(9) =~= text::decimal(index as nat));
    assert(!name.contains('/')) by {
        if name.contains('/') {
            let k = choose|k: int| 0 <= k < name.len() && name[k] == '/';
            if k >= 9 {
                assert(name[k] == text::decimal(index as nat)[k - 9]);
            }
        }
    }
}

proof fn lemma_laid_out(x: ImportView)
    requires
        valid_import(x),
    ensures
        laid_out(x),
{
    let n = x.images.len();
    let base = path::components(x.bx.dir);
    let staging = staging_at(x);
    assert(path::one_step(x.staging)) by {
        reveal_strlit(".import.");
        assert(x.staging.take(8) == ".import."@);
        assert(x.staging[1] == x.staging.take(8)[1]);
    }
    path::lemma_components_placed(x.bx.dir, x.staging);
    let inner = base.push(ComponentView::Normal(x.staging));
    assert(path::components(staging) == inner);
    assert(x.staging[0] == '.') by {
        reveal_strlit(".import.");
        assert(x.staging[0] == x.staging.take(8)[0]);
    }
    assert forall|i: int| 0 <= i < n implies path::components(#[trigger] staged_at(x, i)) == inner.push(
        ComponentView::Normal(x.images[i]),
    ) && path::lies_under(staged_at(x, i), staging) by {
        lemma_image_name(x, i);
        path::lemma_components_placed(staging, x.images[i]);
    }
    assert forall|i: int| 0 <= i < n implies path::components(#[trigger] kept_at(x, i)) == inner.push(
        ComponentView::Normal("original-"@ + text::decimal(i as nat)),
    ) && path::lies_under(kept_at(x, i), staging) by {
        lemma_kept_name(i);
        path::lemma_components_placed(staging, "original-"@ + text::decimal(i as nat));
    }
    assert forall|i: int| 0 <= i < n implies path::components(#[trigger] image_at(x, i)) == base.push(
        ComponentView::Normal(x.images[i]),
    ) by {
        lemma_image_name(x, i);
    }
    assert forall|i: int, j: int| 0 <= i < n && 0 <= j < n && i != j implies #[trigger] image_at(
        x,
        i,
    ) != #[trigger] image_at(x, j) by {
        assert(x.images[i] != x.images[j]);
        assert(path::components(image_at(x, i)).last() == ComponentView::Normal(x.images[i]));
        assert(path::components(image_at(x, j)).last() == ComponentView::Normal(x.images[j]));
    }
    assert forall|i: int, j: int| 0 <= i < n && 0 <= j < n && i != j implies #[trigger] staged_at(
        x,
        i,
    ) != #[trigger] staged_at(x, j) by {
        assert(x.images[i] != x.images[j]);
        assert(path::components(staged_at(x, i)).last() == ComponentView::Normal(x.images[i]));
        assert(path::components(staged_at(x, j)).last() == ComponentView::Normal(x.images[j]));
    }
    assert forall|i: int, j: int| 0 <= i < n && 0 <= j < n && i != j implies #[trigger] kept_at(
        x,
        i,
    ) != #[trigger] kept_at(x, j) by {
        lemma_kept_name(i);
        lemma_kept_name(j);
        assert(path::components(kept_at(x, i)).last() == ComponentView::Normal(
            "original-"@ + text::decimal(i as nat),
        ));
        assert(path::components(kept_at(x, j)).last() == ComponentView::Normal(
            "original-"@ + text::decimal(j as nat),
        ));
    }
    assert forall|i: int, j: int| 0 <= i < n && 0 <= j < n implies #[trigger] image_at(x, i)
        != #[trigger] kept_at(x, j) by {
        assert(path::components(image_at(x, i)).len() == base.len() + 1);
        assert(path::components(kept_at(x, j)).len() == base.len() + 2);
    }
    assert forall|i: int, j: int| 0 <= i < n && 0 <= j < n implies #[trigger] image_at(x, i)
        != #[trigger] staged_at(x, j) by {
        assert(path::components(image_at(x, i)).len() == base.len() + 1);
        assert(path::components(staged_at(x, j)).len() == base.len() + 2);
    }
    assert forall|i: int, j: int| 0 <= i < n && 0 <= j < n implies #[trigger] staged_at(x, i)
        != #[trigger] kept_at(x, j) by {
        lemma_image_name(x, i);
        lemma_kept_name(j);
        assert(path::components(staged_at(x, i)).last() == ComponentView::Normal(x.images[i]));
        assert(path::components(kept_at(x, j)).last() == ComponentView::Normal(
            "original-"@ + text::decimal(j as nat),
        ));
    }
    assert(path::components(journal_at(x)) == base.push(ComponentView::Normal(IMPORT_JOURNAL@))
        && IMPORT_JOURNAL@[0] == '.') by {
        reveal_strlit(".import-journal");
        assert(IMPORT_JOURNAL@[1] == 'i');
        assert(forall|k: int| 0 <= k < 15 ==> IMPORT_JOURNAL@[k] != '/');
        assert(!IMPORT_JOURNAL@.contains('/'));
        path::lemma_components_placed(x.bx.dir, IMPORT_JOURNAL@);
    }
    assert forall|i: int| 0 <= i < n implies !path::lies_under(#[trigger] image_at(x, i), staging)
        && image_at(x, i) != journal_at(x) && path::file_name(image_at(x, i)) == Some(x.images[i]) by {
        lemma_image_name(x, i);
        let steps = path::components(image_at(x, i));
        assert(steps.last() == ComponentView::Normal(x.images[i]));
        assert(inner.last() == ComponentView::Normal(x.staging));
        if path::lies_under(image_at(x, i), staging) {
            assert(steps.take(inner.len() as int).last() == steps.last());
        }
        assert(path::components(journal_at(x)).last() == ComponentView::Normal(IMPORT_JOURNAL@));
    }
}

/// Whether a machine commits an import.
pub open spec fn commits(x: ImportView, m: CommitView) -> bool {
    &&& m.journal == journal_at(x)
    &&& m.staging_dir == staging_at(x)
    &&& m.staging == x.staging
    &&& m.staged == Seq::new(x.images.len(), |i: int| (image_at(x, i), staged_at(x, i)))
}

/// The image is in place and its original, where there was one, is kept.
pub open spec fn through(x: ImportView, first: Disk, disk: Disk, i: int) -> bool {
    &&& renewed(x, first, disk, i)
    &&& !disk.files.contains_key(staged_at(x, i))
    &&& if had(x, first, i) {
        kept(x, first, disk, i)
    } else {
        none_kept(x, disk, i)
    }
}

/// Nothing has happened to the image yet.
pub open spec fn untouched(x: ImportView, first: Disk, disk: Disk, i: int) -> bool {
    original(x, first, disk, i) && none_kept(x, disk, i) && still_staged(x, first, disk, i)
}

/// Everything the import did to the image has been taken back.
pub open spec fn undone(x: ImportView, first: Disk, disk: Disk, i: int) -> bool {
    original(x, first, disk, i) && none_kept(x, disk, i)
}

/// What holds of the disk while an import commits: what has been done to each
/// image, by the stage the commit has reached.
pub open spec fn commit_holds(x: ImportView, first: Disk, m: CommitView, disk: Disk) -> bool {
    let n = x.images.len();
    let recorded = disk.journal == Some(journal::commit_record(m, false));
    &&& commits(x, m)
    &&& journal::commit_stands(m)
    &&& m.entries.len() <= n
    &&& tells(x, first, m.entries)
    &&& !(m.stage is Finished) ==> forall|j: int|
        0 <= j < m.backed.len() ==> #[trigger] m.backed[j] == had(x, first, j)
    &&& match m.stage {
        CommitStageView::Survey(_) => {
            &&& disk.journal == Some(
                JournalView { staging: x.staging, entries: Seq::empty(), committed: false },
            )
            &&& forall|j: int| 0 <= j < n ==> #[trigger] untouched(x, first, disk, j)
        },
        CommitStageView::Record => {
            &&& disk.journal == Some(
                JournalView { staging: x.staging, entries: Seq::empty(), committed: false },
            )
            &&& forall|j: int| 0 <= j < n ==> #[trigger] untouched(x, first, disk, j)
        },
        CommitStageView::Check(i) => {
            &&& recorded
            &&& forall|j: int| 0 <= j < i ==> #[trigger] through(x, first, disk, j)
            &&& forall|j: int| i <= j < n ==> #[trigger] untouched(x, first, disk, j)
        },
        CommitStageView::Backup(i) => {
            &&& recorded
            &&& had(x, first, i)
            &&& forall|j: int| 0 <= j < i ==> #[trigger] through(x, first, disk, j)
            &&& forall|j: int| i <= j < n ==> #[trigger] untouched(x, first, disk, j)
        },
        CommitStageView::Place(i) => {
            &&& recorded
            &&& !disk.files.contains_key(image_at(x, i))
            &&& still_staged(x, first, disk, i)
            &&& if had(x, first, i) {
                kept(x, first, disk, i)
            } else {
                none_kept(x, disk, i)
            }
            &&& forall|j: int| 0 <= j < i ==> #[trigger] through(x, first, disk, j)
            &&& forall|j: int| i < j < n ==> #[trigger] untouched(x, first, disk, j)
        },
        CommitStageView::Mark => {
            &&& recorded
            &&& forall|j: int| 0 <= j < n ==> #[trigger] through(x, first, disk, j)
        },
        CommitStageView::Undo(k, _) => {
            &&& recorded
            &&& if had(x, first, k) {
                kept(x, first, disk, k)
            } else {
                none_kept(x, disk, k) && (!disk.files.contains_key(image_at(x, k))
                    || !disk.files.contains_key(staged_at(x, k)))
            }
            &&& forall|j: int| 0 <= j < k ==> #[trigger] through(x, first, disk, j)
            &&& forall|j: int| k < j < n ==> #[trigger] undone(x, first, disk, j)
        },
        CommitStageView::Restore(k, _) => {
            &&& recorded
            &&& had(x, first, k)
            &&& kept(x, first, disk, k)
            &&& !disk.files.contains_key(image_at(x, k))
            &&& forall|j: int| 0 <= j < k ==> #[trigger] through(x, first, disk, j)
            &&& forall|j: int| k < j < n ==> #[trigger] undone(x, first, disk, j)
        },
        CommitStageView::Forget(_) => {
            &&& recorded
            &&& forall|j: int| 0 <= j < n ==> #[trigger] undone(x, first, disk, j)
        },
        CommitStageView::Finished(Ok(_)) => {
            &&& m.entries.len() == n
            &&& disk.journal == Some(journal::commit_record(m, true))
            &&& forall|j: int| 0 <= j < n ==> #[trigger] renewed(x, first, disk, j)
        },
        CommitStageView::Finished(Err(_)) => recoverable(x, first, disk),
    }
}

/// An import that begins to commit has lost nothing.
pub proof fn commits_begin_recoverable(x: ImportView, first: Disk, m: CommitView)
    requires
        valid_import(x),
        commits(x, m),
        m.stage == CommitStageView::Survey(0),
        m.entries.len() == 0,
        m.backed.len() == 0,
        first.journal == Some(
            JournalView { staging: x.staging, entries: Seq::empty(), committed: false },
        ),
        forall|i: int| 0 <= i < x.images.len() ==> #[trigger] none_kept(x, first, i),
    ensures
        commit_holds(x, first, m, first),
        recoverable(x, first, first),
{
    assert forall|j: int| 0 <= j < x.images.len() implies #[trigger] untouched(
        x,
        first,
        first,
        j,
    ) by {
        assert(none_kept(x, first, j));
    }
    assert forall|j: int| 0 <= j < x.images.len() implies #[trigger] original(
        x,
        first,
        first,
        j,
    ) by {}
}

proof fn lemma_commit_recoverable(x: ImportView, first: Disk, m: CommitView, disk: Disk)
    requires
        valid_import(x),
        commit_holds(x, first, m, disk),
    ensures
        recoverable(x, first, disk),
{
    let n = x.images.len();
    match m.stage {
        CommitStageView::Survey(_) => {
            assert forall|j: int| 0 <= j < n implies #[trigger] original(x, first, disk, j) by {
                assert(untouched(x, first, disk, j));
            }
        },
        CommitStageView::Record => {
            assert forall|j: int| 0 <= j < n implies #[trigger] original(x, first, disk, j) by {
                assert(untouched(x, first, disk, j));
            }
        },
        CommitStageView::Finished(_) => {},
        _ => {
            assert forall|j: int| 0 <= j < n implies #[trigger] salvageable(
                x,
                first,
                disk,
                j,
            ) by {
                match m.stage {
                    CommitStageView::Check(i) => if j < i {
                        assert(through(x, first, disk, j));
                    } else {
                        assert(untouched(x, first, disk, j));
                    },
                    CommitStageView::Backup(i) => if j < i {
                        assert(through(x, first, disk, j));
                    } else {
                        assert(untouched(x, first, disk, j));
                    },
                    CommitStageView::Place(i) => if j < i {
                        assert(through(x, first, disk, j));
                    } else if j > i {
                        assert(untouched(x, first, disk, j));
                    },
                    CommitStageView::Undo(k, _) => if j < k {
                        assert(through(x, first, disk, j));
                    } else if j > k {
                        assert(undone(x, first, disk, j));
                    },
                    CommitStageView::Restore(k, _) => if j < k {
                        assert(through(x, first, disk, j));
                    } else if j > k {
                        assert(undone(x, first, disk, j));
                    },
                    CommitStageView::Forget(_) => {
                        assert(undone(x, first, disk, j));
                    },
                    _ => {
                        assert(through(x, first, disk, j));
                    },
                }
            }
        },
    }
}

/// Whether nothing was done at a path.
pub open spec fn same_file(before: Disk, after: Disk, p: Seq<char>) -> bool {
    before.files.contains_key(p) == after.files.contains_key(p) && (before.files.contains_key(p)
        ==> before.files[p] == after.files[p])
}

/// Whether nothing was done at any path of an image.
spec fn same_at(x: ImportView, before: Disk, after: Disk, j: int) -> bool {
    &&& same_file(before, after, image_at(x, j))
    &&& same_file(before, after, staged_at(x, j))
    &&& same_file(before, after, kept_at(x, j))
}

/// Whether a step changed nothing but at the paths of one image.
spec fn only_at(x: ImportView, before: Disk, after: Disk, i: int) -> bool {
    forall|p: Seq<char>|
        p != image_at(x, i) && p != staged_at(x, i) && p != kept_at(x, i) ==> #[trigger] same_file(
            before,
            after,
            p,
        )
}

/// A step at the paths of one image leaves the others alone.
proof fn lemma_only_at(x: ImportView, before: Disk, after: Disk, i: int)
    requires
        laid_out(x),
        0 <= i < x.images.len(),
        only_at(x, before, after, i),
    ensures
        forall|j: int|
            0 <= j < x.images.len() && j != i ==> #[trigger] same_at(x, before, after, j),
{
    assert forall|j: int| 0 <= j < x.images.len() && j != i implies #[trigger] same_at(
        x,
        before,
        after,
        j,
    ) by {
        assert(image_at(x, j) != image_at(x, i) && image_at(x, j) != kept_at(x, i) && image_at(x, j)
            != staged_at(x, i));
        assert(staged_at(x, j) != image_at(x, i) && staged_at(x, j) != kept_at(x, i)
            && staged_at(x, j) != staged_at(x, i));
        assert(kept_at(x, j) != image_at(x, i) && kept_at(x, j) != kept_at(x, i) && kept_at(x, j)
            != staged_at(x, i));
    }
}

/// What holds of the images a step does not touch goes on to hold.
proof fn lemma_others(x: ImportView, first: Disk, before: Disk, after: Disk, i: int)
    requires
        forall|j: int|
            0 <= j < x.images.len() && j != i ==> #[trigger] same_at(x, before, after, j),
    ensures
        forall|j: int|
            0 <= j < x.images.len() && j != i && through(x, first, before, j) ==> #[trigger] through(
                x,
                first,
                after,
                j,
            ),
        forall|j: int|
            0 <= j < x.images.len() && j != i && untouched(x, first, before, j)
                ==> #[trigger] untouched(x, first, after, j),
        forall|j: int|
            0 <= j < x.images.len() && j != i && undone(x, first, before, j) ==> #[trigger] undone(
                x,
                first,
                after,
                j,
            ),
{
    assert forall|j: int|
        0 <= j < x.images.len() && j != i && through(x, first, before, j) implies #[trigger] through(
        x,
        first,
        after,
        j,
    ) by {
        assert(same_at(x, before, after, j));
    }
    assert forall|j: int|
        0 <= j < x.images.len() && j != i && untouched(x, first, before, j) implies #[trigger] untouched(
        x,
        first,
        after,
        j,
    ) by {
        assert(same_at(x, before, after, j));
    }
    assert forall|j: int|
        0 <= j < x.images.len() && j != i && undone(x, first, before, j) implies #[trigger] undone(
        x,
        first,
        after,
        j,
    ) by {
        assert(same_at(x, before, after, j));
    }
}

/// An image nothing was done to is one everything has been taken back of.
proof fn lemma_untouched_is_undone(x: ImportView, first: Disk, disk: Disk)
    ensures
        forall|j: int| untouched(x, first, disk, j) ==> #[trigger] undone(x, first, disk, j),
{
}

/// One step of a commit from a state that is as it should be.
spec fn commit_moves(
    x: ImportView,
    first: Disk,
    m: CommitView,
    before: Disk,
    event: EventView,
    after: Disk,
) -> bool {
    &&& valid_import(x)
    &&& laid_out(x)
    &&& recoverable(x, first, before)
    &&& commit_holds(x, first, m, before)
    &&& journal::commit_asks(m) is Some
    &&& happens(x, before, journal::commit_asks(m)->0, event, after)
}

proof fn lemma_survey_step(
    x: ImportView,
    first: Disk,
    m: CommitView,
    before: Disk,
    event: EventView,
    after: Disk,
)
    requires
        commit_moves(x, first, m, before, event, after),
        m.stage is Survey,
    ensures
        commit_holds(x, first, journal::commit_after(m, event), after),
{
    let n = x.images.len();
    let next = journal::commit_after(m, event);
    let i = m.stage->Survey_0;
    assert(untouched(x, first, before, i));
    assert(path::file_name(image_at(x, i)) == Some(x.images[i]));
}

proof fn lemma_record_step(
    x: ImportView,
    first: Disk,
    m: CommitView,
    before: Disk,
    event: EventView,
    after: Disk,
)
    requires
        commit_moves(x, first, m, before, event, after),
        m.stage is Record,
    ensures
        commit_holds(x, first, journal::commit_after(m, event), after),
{
    let n = x.images.len();
    let next = journal::commit_after(m, event);
    assert forall|j: int| 0 <= j < n implies untouched(x, first, after, j) by {
        assert(untouched(x, first, before, j));
    }
}

proof fn lemma_check_step(
    x: ImportView,
    first: Disk,
    m: CommitView,
    before: Disk,
    event: EventView,
    after: Disk,
)
    requires
        commit_moves(x, first, m, before, event, after),
        m.stage is Check,
    ensures
        commit_holds(x, first, journal::commit_after(m, event), after),
{
    let n = x.images.len();
    let next = journal::commit_after(m, event);
    let i = m.stage->Check_0;
    assert(untouched(x, first, before, i));
    lemma_untouched_is_undone(x, first, before);
    if i > 0 {
        assert(through(x, first, before, i - 1));
    }
    if event is Missing {
        assert(next.backed == m.backed.push(false));
    }
}

proof fn lemma_backup_step(
    x: ImportView,
    first: Disk,
    m: CommitView,
    before: Disk,
    event: EventView,
    after: Disk,
)
    requires
        commit_moves(x, first, m, before, event, after),
        m.stage is Backup,
    ensures
        commit_holds(x, first, journal::commit_after(m, event), after),
{
    let n = x.images.len();
    let next = journal::commit_after(m, event);
    let i = m.stage->Backup_0;
    assert(untouched(x, first, before, i));
    lemma_untouched_is_undone(x, first, before);
    if i > 0 {
        assert(through(x, first, before, i - 1));
    }
    if journal::trouble(event) is None {
        assert(next.backed == m.backed.push(true));
        assert(only_at(x, before, after, i));
        lemma_only_at(x, before, after, i);
        lemma_others(x, first, before, after, i);
    }
}

proof fn lemma_place_step(
    x: ImportView,
    first: Disk,
    m: CommitView,
    before: Disk,
    event: EventView,
    after: Disk,
)
    requires
        commit_moves(x, first, m, before, event, after),
        m.stage is Place,
    ensures
        commit_holds(x, first, journal::commit_after(m, event), after),
{
    let n = x.images.len();
    let next = journal::commit_after(m, event);
    let i = m.stage->Place_0;
    assert(m.backed[i] == had(x, first, i));
    lemma_untouched_is_undone(x, first, before);
    if journal::trouble(event) is None {
        assert(only_at(x, before, after, i));
        lemma_only_at(x, before, after, i);
        lemma_others(x, first, before, after, i);
        assert(through(x, first, after, i));
    }
}

proof fn lemma_mark_step(
    x: ImportView,
    first: Disk,
    m: CommitView,
    before: Disk,
    event: EventView,
    after: Disk,
)
    requires
        commit_moves(x, first, m, before, event, after),
        m.stage is Mark,
    ensures
        commit_holds(x, first, journal::commit_after(m, event), after),
{
    let n = x.images.len();
    let next = journal::commit_after(m, event);
    assert forall|j: int| 0 <= j < n implies #[trigger] renewed(x, first, after, j)
        && salvageable(x, first, after, j) by {
        assert(through(x, first, before, j));
    }
}

proof fn lemma_undo_step(
    x: ImportView,
    first: Disk,
    m: CommitView,
    before: Disk,
    event: EventView,
    after: Disk,
)
    requires
        commit_moves(x, first, m, before, event, after),
        m.stage is Undo,
    ensures
        commit_holds(x, first, journal::commit_after(m, event), after),
{
    let n = x.images.len();
    let next = journal::commit_after(m, event);
    let k = m.stage->Undo_0;
    assert(m.backed[k] == had(x, first, k));
    assert(only_at(x, before, after, k));
    lemma_only_at(x, before, after, k);
    lemma_others(x, first, before, after, k);
    if k > 0 {
        assert(through(x, first, before, k - 1));
    }
}

proof fn lemma_restore_step(
    x: ImportView,
    first: Disk,
    m: CommitView,
    before: Disk,
    event: EventView,
    after: Disk,
)
    requires
        commit_moves(x, first, m, before, event, after),
        m.stage is Restore,
    ensures
        commit_holds(x, first, journal::commit_after(m, event), after),
{
    let n = x.images.len();
    let next = journal::commit_after(m, event);
    let k = m.stage->Restore_0;
    assert(only_at(x, before, after, k));
    lemma_only_at(x, before, after, k);
    lemma_others(x, first, before, after, k);
    if k > 0 {
        assert(through(x, first, before, k - 1));
    }
}

proof fn lemma_forget_step(
    x: ImportView,
    first: Disk,
    m: CommitView,
    before: Disk,
    event: EventView,
    after: Disk,
)
    requires
        commit_moves(x, first, m, before, event, after),
        m.stage is Forget,
    ensures
        commit_holds(x, first, journal::commit_after(m, event), after),
{
    let n = x.images.len();
    let next = journal::commit_after(m, event);
    assert forall|j: int| 0 <= j < n implies #[trigger] original(x, first, after, j) by {
        assert(undone(x, first, before, j));
    }
}

/// Every step of a commit, whatever came of it, leaves the disk so that no
/// image is lost if the import stops there; one that fails and could take
/// everything back leaves every original in place, and one that succeeds every
/// new image.
pub proof fn every_step_of_a_commit_is_recoverable(
    x: ImportView,
    first: Disk,
    m: CommitView,
    before: Disk,
    event: EventView,
    after: Disk,
)
    requires
        valid_import(x),
        commit_holds(x, first, m, before),
        journal::commit_asks(m) is Some,
        happens(x, before, journal::commit_asks(m)->0, event, after),
    ensures
        commit_holds(x, first, journal::commit_after(m, event), after),
        recoverable(x, first, after),
        journal::commit_after(m, event).stage is Forget ==> forall|i: int|
            0 <= i < x.images.len() ==> #[trigger] original(x, first, after, i),
        journal::commit_after(m, event).stage == CommitStageView::Finished(Ok(())) ==> forall|i: int|
            0 <= i < x.images.len() ==> #[trigger] renewed(x, first, after, i),
{
    lemma_laid_out(x);
    lemma_commit_recoverable(x, first, m, before);
    let n = x.images.len();
    let next = journal::commit_after(m, event);
    match m.stage {
        CommitStageView::Survey(_) => lemma_survey_step(x, first, m, before, event, after),
        CommitStageView::Record => lemma_record_step(x, first, m, before, event, after),
        CommitStageView::Check(_) => lemma_check_step(x, first, m, before, event, after),
        CommitStageView::Backup(_) => lemma_backup_step(x, first, m, before, event, after),
        CommitStageView::Place(_) => lemma_place_step(x, first, m, before, event, after),
        CommitStageView::Mark => lemma_mark_step(x, first, m, before, event, after),
        CommitStageView::Undo(_, _) => lemma_undo_step(x, first, m, before, event, after),
        CommitStageView::Restore(_, _) => lemma_restore_step(x, first, m, before, event, after),
        CommitStageView::Forget(_) => lemma_forget_step(x, first, m, before, event, after),
        CommitStageView::Finished(_) => {},
    }
    lemma_commit_recoverable(x, first, next, after);
    if next.stage is Forget {
        assert forall|i: int| 0 <= i < n implies #[trigger] original(x, first, after, i) by {
            assert(undone(x, first, after, i));
        }
    }
}

/// The image is the original, and none is kept besides.
pub open spec fn settled(x: ImportView, first: Disk, disk: Disk, i: int) -> bool {
    original(x, first, disk, i) && (had(x, first, i) ==> none_kept(x, disk, i))
}

/// What holds of the disk while a recovery is under way, by the stage it has
/// reached.
pub open spec fn recover_holds(x: ImportView, first: Disk, m: RecoverView, disk: Disk) -> bool {
    let n = x.images.len();
    let record = m.record;
    let back = !record.committed && record.entries.len() > 0;
    &&& m.bx == x.bx
    &&& m.stamp == x.stamp
    &&& recover::recover_stands(m)
    &&& !(m.stage is Finished) ==> disk.journal == Some(record) && recoverable(x, first, disk)
    &&& match m.stage {
        RecoverStageView::Stamp => record.committed,
        RecoverStageView::Sync => record.committed,
        RecoverStageView::Probe(i) => {
            &&& back
            &&& forall|j: int| 0 <= j < i ==> #[trigger] settled(x, first, disk, j)
        },
        RecoverStageView::Clear(i) => {
            &&& back
            &&& had(x, first, i)
            &&& kept(x, first, disk, i)
            &&& forall|j: int| 0 <= j < i ==> #[trigger] settled(x, first, disk, j)
        },
        RecoverStageView::Restore(i) => {
            &&& back
            &&& had(x, first, i)
            &&& kept(x, first, disk, i)
            &&& !disk.files.contains_key(image_at(x, i))
            &&& forall|j: int| 0 <= j < i ==> #[trigger] settled(x, first, disk, j)
        },
        RecoverStageView::ProbeStaged(i) => {
            &&& back
            &&& !had(x, first, i)
            &&& forall|j: int| 0 <= j < i ==> #[trigger] settled(x, first, disk, j)
        },
        RecoverStageView::Discard(i) => {
            &&& back
            &&& !had(x, first, i)
            &&& forall|j: int| 0 <= j < i ==> #[trigger] settled(x, first, disk, j)
        },
        RecoverStageView::Staging => back ==> forall|j: int|
            0 <= j < n ==> #[trigger] settled(x, first, disk, j),
        RecoverStageView::Journal => back ==> forall|j: int|
            0 <= j < n ==> #[trigger] settled(x, first, disk, j),
        RecoverStageView::Finished(Ok(_)) => {
            &&& disk.journal is None
            &&& if record.committed {
                forall|j: int| 0 <= j < n ==> #[trigger] renewed(x, first, disk, j)
            } else {
                forall|j: int| 0 <= j < n ==> #[trigger] original(x, first, disk, j)
            }
        },
        RecoverStageView::Finished(Err(_)) => recoverable(x, first, disk),
    }
}

/// Recovery can begin on every disk an import that stopped leaves behind.
pub proof fn recovery_begins(x: ImportView, first: Disk, disk: Disk)
    requires
        valid_import(x),
        recoverable(x, first, disk),
        disk.journal is Some,
    ensures
        recover_holds(x, first, recover::recover_start(x.bx, x.stamp, disk.journal->0), disk),
{
    let record = disk.journal->0;
    if record.entries.len() > 0 {
        assert(record.entries[0].image == x.images[0]);
        lemma_image_name(x, 0);
    }
}

/// One step of a recovery from a state that is as it should be.
spec fn recover_moves(
    x: ImportView,
    first: Disk,
    m: RecoverView,
    before: Disk,
    event: EventView,
    after: Disk,
) -> bool {
    &&& valid_import(x)
    &&& laid_out(x)
    &&& recover_holds(x, first, m, before)
    &&& recover::recover_asks(m) is Some
    &&& happens(x, before, recover::recover_asks(m)->0, event, after)
}

/// That turning to the next entry goes well once all before it are settled.
proof fn lemma_turns(x: ImportView, first: Disk, m: RecoverView, disk: Disk, i: int)
    requires
        valid_import(x),
        m.bx == x.bx,
        m.stamp == x.stamp,
        !m.record.committed,
        0 <= i < m.record.entries.len() == x.images.len(),
        disk.journal == Some(m.record),
        recoverable(x, first, disk),
        forall|j: int| 0 <= j <= i ==> #[trigger] settled(x, first, disk, j),
    ensures
        recover_holds(x, first, recover::recover_from(m, i + 1), disk),
{
    if i + 1 < x.images.len() {
        assert(m.record.entries[i + 1].image == x.images[i + 1]);
        lemma_image_name(x, i + 1);
    }
}

proof fn lemma_recover_sweep(
    x: ImportView,
    first: Disk,
    m: RecoverView,
    before: Disk,
    event: EventView,
    after: Disk,
)
    requires
        recover_moves(x, first, m, before, event, after),
        m.stage is Stamp || m.stage is Sync || m.stage is Staging || m.stage is Journal,
    ensures
        recover_holds(x, first, recover::recover_after(m, event), after),
{
    let n = x.images.len();
    let record = m.record;
    let back = !record.committed && record.entries.len() > 0;
    assert forall|j: int| 0 <= j < n && original(x, first, before, j) implies #[trigger] original(
        x,
        first,
        after,
        j,
    ) by {
        assert(!path::lies_under(image_at(x, j), staging_at(x)));
    }
    assert forall|j: int| 0 <= j < n && renewed(x, first, before, j) implies #[trigger] renewed(
        x,
        first,
        after,
        j,
    ) by {
        assert(!path::lies_under(image_at(x, j), staging_at(x)));
    }
    if back && (m.stage is Staging || m.stage is Journal) {
        assert forall|j: int| 0 <= j < n implies #[trigger] settled(x, first, after, j) by {
            assert(settled(x, first, before, j));
        }
        assert forall|j: int| 0 <= j < n implies #[trigger] original(x, first, after, j) by {
            assert(settled(x, first, after, j));
        }
        assert forall|j: int| 0 <= j < n implies #[trigger] salvageable(x, first, after, j) by {
            assert(settled(x, first, after, j));
        }
    }
}

/// What a step at one image leaves of the others.
proof fn lemma_recover_others(x: ImportView, first: Disk, m: RecoverView, before: Disk, after: Disk, i: int)
    requires
        valid_import(x),
        !m.record.committed,
        m.record.entries.len() > 0,
        before.journal == Some(m.record),
        after.journal == before.journal,
        recoverable(x, first, before),
        0 <= i < x.images.len(),
        forall|j: int| 0 <= j < i ==> #[trigger] settled(x, first, before, j),
        forall|j: int|
            0 <= j < x.images.len() && j != i ==> #[trigger] same_at(x, before, after, j),
        salvageable(x, first, after, i),
    ensures
        recoverable(x, first, after),
        forall|j: int| 0 <= j < i ==> #[trigger] settled(x, first, after, j),
{
    assert forall|j: int| 0 <= j < i implies #[trigger] settled(x, first, after, j) by {
        assert(settled(x, first, before, j));
        assert(same_at(x, before, after, j));
    }
    assert forall|j: int| 0 <= j < x.images.len() implies #[trigger] salvageable(
        x,
        first,
        after,
        j,
    ) by {
        if j != i {
            assert(salvageable(x, first, before, j));
            assert(same_at(x, before, after, j));
        }
    }
}

/// What a recovery knows of the entry it is at.
proof fn lemma_recover_here(x: ImportView, first: Disk, m: RecoverView, disk: Disk, i: int)
    requires
        valid_import(x),
        m.bx == x.bx,
        !m.record.committed,
        0 <= i < m.record.entries.len(),
        disk.journal == Some(m.record),
        recoverable(x, first, disk),
    ensures
        m.record.entries.len() == x.images.len(),
        m.record.entries[i].image == x.images[i],
        m.record.entries[i].existed == had(x, first, i),
        recover::entry_path(m, i) == image_at(x, i),
        recover::staging_of(m) == staging_at(x),
        salvageable(x, first, disk, i),
{
    assert(m.record.entries[i].image == x.images[i]);
    lemma_image_name(x, i);
    assert(salvageable(x, first, disk, i));
}

proof fn lemma_recover_probe(
    x: ImportView,
    first: Disk,
    m: RecoverView,
    before: Disk,
    event: EventView,
    after: Disk,
)
    requires
        recover_moves(x, first, m, before, event, after),
        m.stage is Probe,
    ensures
        recover_holds(x, first, recover::recover_after(m, event), after),
{
    let i = m.stage->Probe_0;
    lemma_recover_here(x, first, m, before, i);
    if m.record.entries[i].existed && event is Missing {
        assert(settled(x, first, after, i));
        lemma_turns(x, first, m, after, i);
    }
}

proof fn lemma_recover_clear(
    x: ImportView,
    first: Disk,
    m: RecoverView,
    before: Disk,
    event: EventView,
    after: Disk,
)
    requires
        recover_moves(x, first, m, before, event, after),
        m.stage is Clear,
    ensures
        recover_holds(x, first, recover::recover_after(m, event), after),
{
    let i = m.stage->Clear_0;
    lemma_recover_here(x, first, m, before, i);
    assert(only_at(x, before, after, i));
    lemma_only_at(x, before, after, i);
    assert(kept(x, first, after, i));
    lemma_recover_others(x, first, m, before, after, i);
}

proof fn lemma_recover_restore(
    x: ImportView,
    first: Disk,
    m: RecoverView,
    before: Disk,
    event: EventView,
    after: Disk,
)
    requires
        recover_moves(x, first, m, before, event, after),
        m.stage is Restore,
    ensures
        recover_holds(x, first, recover::recover_after(m, event), after),
{
    let i = m.stage->Restore_0;
    lemma_recover_here(x, first, m, before, i);
    assert(only_at(x, before, after, i));
    lemma_only_at(x, before, after, i);
    assert(salvageable(x, first, after, i));
    lemma_recover_others(x, first, m, before, after, i);
    if journal::trouble(event) is None {
        assert(settled(x, first, after, i));
        lemma_turns(x, first, m, after, i);
    }
}

proof fn lemma_recover_probe_staged(
    x: ImportView,
    first: Disk,
    m: RecoverView,
    before: Disk,
    event: EventView,
    after: Disk,
)
    requires
        recover_moves(x, first, m, before, event, after),
        m.stage is ProbeStaged,
    ensures
        recover_holds(x, first, recover::recover_after(m, event), after),
{
    let i = m.stage->ProbeStaged_0;
    lemma_recover_here(x, first, m, before, i);
    if journal::trouble(event) is None {
        lemma_laid_out(x);
        assert(before.files.contains_key(staged_at(x, i)));
        assert(settled(x, first, after, i));
        lemma_turns(x, first, m, after, i);
    }
}

proof fn lemma_recover_discard(
    x: ImportView,
    first: Disk,
    m: RecoverView,
    before: Disk,
    event: EventView,
    after: Disk,
)
    requires
        recover_moves(x, first, m, before, event, after),
        m.stage is Discard,
    ensures
        recover_holds(x, first, recover::recover_after(m, event), after),
{
    let i = m.stage->Discard_0;
    lemma_recover_here(x, first, m, before, i);
    assert(only_at(x, before, after, i));
    lemma_only_at(x, before, after, i);
    assert(salvageable(x, first, after, i));
    lemma_recover_others(x, first, m, before, after, i);
    if !(event is Failed) {
        assert(settled(x, first, after, i));
        lemma_turns(x, first, m, after, i);
    }
}

/// Every step of a recovery, whatever came of it, leaves the disk so that
/// another recovery can begin where this one stops; one that succeeds leaves no
/// journal and every image the original, or, of an import that was through,
/// every image the new one.
pub proof fn every_step_of_a_recovery_is_recoverable(
    x: ImportView,
    first: Disk,
    m: RecoverView,
    before: Disk,
    event: EventView,
    after: Disk,
)
    requires
        valid_import(x),
        recover_holds(x, first, m, before),
        recover::recover_asks(m) is Some,
        happens(x, before, recover::recover_asks(m)->0, event, after),
    ensures
        recover_holds(x, first, recover::recover_after(m, event), after),
        recover::recover_after(m, event).stage != RecoverStageView::Finished(Ok(())) ==> recoverable(
            x,
            first,
            after,
        ),
        recover::recover_after(m, event).stage == RecoverStageView::Finished(Ok(())) ==> {
            &&& after.journal is None
            &&& if m.record.committed {
                forall|i: int| 0 <= i < x.images.len() ==> #[trigger] renewed(x, first, after, i)
            } else {
                forall|i: int| 0 <= i < x.images.len() ==> #[trigger] original(x, first, after, i)
            }
        },
{
    lemma_laid_out(x);
    match m.stage {
        RecoverStageView::Probe(_) => lemma_recover_probe(x, first, m, before, event, after),
        RecoverStageView::Clear(_) => lemma_recover_clear(x, first, m, before, event, after),
        RecoverStageView::Restore(_) => lemma_recover_restore(x, first, m, before, event, after),
        RecoverStageView::ProbeStaged(_) => lemma_recover_probe_staged(
            x,
            first,
            m,
            before,
            event,
            after,
        ),
        RecoverStageView::Discard(_) => lemma_recover_discard(x, first, m, before, event, after),
        RecoverStageView::Finished(_) => {},
        _ => lemma_recover_sweep(x, first, m, before, event, after),
    }
}

/// Whether an import left everything alone that is not its own: not an image of
/// it, not staged by it, not its journal, and not the stamp of a baked root.
pub open spec fn elsewhere(x: ImportView, before: Disk, after: Disk) -> bool {
    forall|p: Seq<char>|
        !path::lies_under(p, staging_at(x)) && p != journal_at(x) && p != x.stamp && (forall|i: int|
            0 <= i < x.images.len() ==> p != #[trigger] image_at(x, i)) ==> #[trigger] same_file(
            before,
            after,
            p,
        )
}

/// Whether nothing of a staging directory is left.
pub open spec fn nothing_staged(x: ImportView, disk: Disk) -> bool {
    forall|p: Seq<char>| #[trigger] disk.files.contains_key(p) ==> !path::lies_under(p, staging_at(x))
}

/// Whether the stamp of a baked root goes with the images of a record.
pub open spec fn drops_stamp(record: JournalView) -> bool {
    record.committed && recover::brings_rootfs(record)
}

/// What a recovery has swept up, by the stage it has reached.
pub open spec fn sweeping(x: ImportView, start: Disk, m: RecoverView, disk: Disk) -> bool {
    &&& elsewhere(x, start, disk)
    &&& m.stage is Stamp ==> drops_stamp(m.record)
    &&& !drops_stamp(m.record) ==> same_file(start, disk, x.stamp)
    &&& drops_stamp(m.record) && !(m.stage is Stamp) && !(m.stage matches RecoverStageView::Finished(
        Err(_),
    )) ==> !disk.files.contains_key(x.stamp)
    &&& m.stage is Journal || m.stage == RecoverStageView::Finished(Ok(())) ==> nothing_staged(x, disk)
}

proof fn lemma_sweeping(
    x: ImportView,
    first: Disk,
    start: Disk,
    m: RecoverView,
    before: Disk,
    event: EventView,
    after: Disk,
)
    requires
        valid_import(x),
        !path::lies_under(x.stamp, staging_at(x)),
        recover_holds(x, first, m, before),
        sweeping(x, start, m, before),
        recover::recover_asks(m) is Some,
        happens(x, before, recover::recover_asks(m)->0, event, after),
    ensures
        sweeping(x, start, recover::recover_after(m, event), after),
{
    lemma_laid_out(x);
    let i = match m.stage {
        RecoverStageView::Probe(i) => i,
        RecoverStageView::Clear(i) => i,
        RecoverStageView::Restore(i) => i,
        RecoverStageView::ProbeStaged(i) => i,
        RecoverStageView::Discard(i) => i,
        _ => -1,
    };
    if i >= 0 {
        lemma_recover_here(x, first, m, before, i);
        assert(image_at(x, i) != x.stamp);
        assert(path::lies_under(kept_at(x, i), staging_at(x)));
    }
    assert(same_file(before, after, x.stamp) || m.stage is Stamp);
    assert forall|p: Seq<char>|
        !path::lies_under(p, staging_at(x)) && p != journal_at(x) && p != x.stamp && (forall|i: int|
            0 <= i < x.images.len() ==> p != #[trigger] image_at(x, i)) implies #[trigger] same_file(
        start,
        after,
        p,
    ) by {
        assert(same_file(start, before, p));
        if i >= 0 {
            assert(p != image_at(x, i));
        }
    }
}

/// A recovery from its start: every action it asks for happens, and it is told
/// what came of it.
pub open spec fn recovery_runs(
    x: ImportView,
    stages: Seq<RecoverView>,
    disks: Seq<Disk>,
    events: Seq<EventView>,
) -> bool {
    &&& stages.len() == events.len() + 1
    &&& disks.len() == events.len() + 1
    &&& disks[0].journal is Some
    &&& stages[0] == recover::recover_start(x.bx, x.stamp, disks[0].journal->0)
    &&& forall|k: int|
        0 <= k < events.len() ==> {
            &&& recover::recover_asks(stages[k]) is Some
            &&& happens(
                x,
                disks[k],
                recover::recover_asks(stages[k])->0,
                #[trigger] events[k],
                disks[k + 1],
            )
            &&& stages[k + 1] == recover::recover_after(stages[k], events[k])
        }
}

/// Whether nothing fails of what a recovery asks for.
pub open spec fn nothing_fails(
    x: ImportView,
    stages: Seq<RecoverView>,
    events: Seq<EventView>,
) -> bool {
    forall|k: int|
        0 <= k < events.len() ==> recover::recover_asks(stages[k]) is Some && succeeds(
            x,
            recover::recover_asks(stages[k])->0,
            #[trigger] events[k],
        )
}

proof fn lemma_recovery_run(
    x: ImportView,
    first: Disk,
    stages: Seq<RecoverView>,
    disks: Seq<Disk>,
    events: Seq<EventView>,
    k: int,
)
    requires
        valid_import(x),
        !path::lies_under(x.stamp, staging_at(x)),
        recovery_runs(x, stages, disks, events),
        recoverable(x, first, disks[0]),
        0 <= k <= events.len(),
    ensures
        recover_holds(x, first, stages[k], disks[k]),
        sweeping(x, disks[0], stages[k], disks[k]),
        stages[k].record == disks[0].journal->0,
        0 <= steps_left(stages[k]) <= 3 * x.images.len() + 4 - k,
        nothing_fails(x, stages, events) ==> !(stages[k].stage matches RecoverStageView::Finished(
            Err(_),
        )),
    decreases k,
{
    if k == 0 {
        recovery_begins(x, first, disks[0]);
        if disks[0].journal->0.entries.len() > 0 {
            assert(disks[0].journal->0.entries[0].image == x.images[0]);
            lemma_image_name(x, 0);
        }
    } else {
        lemma_recovery_run(x, first, stages, disks, events, k - 1);
        let event = events[k - 1];
        every_step_of_a_recovery_is_recoverable(
            x,
            first,
            stages[k - 1],
            disks[k - 1],
            event,
            disks[k],
        );
        lemma_sweeping(x, first, disks[0], stages[k - 1], disks[k - 1], event, disks[k]);
        lemma_recovery_goes_on(x, first, stages[k - 1], disks[k - 1], event);
    }
}

/// How many more steps a recovery can take at most.
spec fn steps_left(m: RecoverView) -> int {
    let n = m.record.entries.len();
    match m.stage {
        RecoverStageView::Stamp => 4,
        RecoverStageView::Sync => 3,
        RecoverStageView::Probe(i) => 3 * (n - i) + 2,
        RecoverStageView::Clear(i) => 3 * (n - i) + 1,
        RecoverStageView::Restore(i) => 3 * (n - i),
        RecoverStageView::ProbeStaged(i) => 3 * (n - i) + 1,
        RecoverStageView::Discard(i) => 3 * (n - i),
        RecoverStageView::Staging => 2,
        RecoverStageView::Journal => 1,
        RecoverStageView::Finished(_) => 0,
    }
}

proof fn lemma_recovery_goes_on(
    x: ImportView,
    first: Disk,
    m: RecoverView,
    before: Disk,
    event: EventView,
)
    requires
        valid_import(x),
        recover_holds(x, first, m, before),
        recover::recover_asks(m) is Some,
    ensures
        0 <= steps_left(recover::recover_after(m, event)) < steps_left(m),
        succeeds(x, recover::recover_asks(m)->0, event) ==> !(recover::recover_after(
            m,
            event,
        ).stage matches RecoverStageView::Finished(Err(_))),
{
    let i = match m.stage {
        RecoverStageView::Probe(i) => i,
        RecoverStageView::Clear(i) => i,
        RecoverStageView::Restore(i) => i,
        RecoverStageView::ProbeStaged(i) => i,
        RecoverStageView::Discard(i) => i,
        _ => -1,
    };
    if i >= 0 {
        lemma_recover_here(x, first, m, before, i);
        if i + 1 < m.record.entries.len() {
            lemma_recover_here(x, first, m, before, i + 1);
            lemma_image_name(x, i + 1);
        }
    }
}

/// What reading the journal of a disk says.
pub open spec fn read_of(disk: Disk) -> JournalReadView {
    match disk.journal {
        None => JournalReadView::Missing,
        Some(record) => JournalReadView::Found(record),
    }
}

/// Whether a disk is as a recovery leaves it that set out from another: every
/// image the original, or, of an import that was through, the new one; nothing
/// in the staging directory; the stamp of a baked root as it was, or none where
/// a new root came in; everything else as it was; and no journal, so that
/// another recovery does nothing.
pub open spec fn recovered(x: ImportView, first: Disk, start: Disk, disk: Disk) -> bool {
    let record = start.journal->0;
    &&& forall|i: int|
        0 <= i < x.images.len() ==> if record.committed {
            #[trigger] renewed(x, first, disk, i)
        } else {
            original(x, first, disk, i)
        }
    &&& nothing_staged(x, disk)
    &&& if drops_stamp(record) {
        !disk.files.contains_key(x.stamp)
    } else {
        same_file(start, disk, x.stamp)
    }
    &&& elsewhere(x, start, disk)
    &&& disk.journal is None
    &&& recover::recovery_of(x.bx, x.stamp, read_of(disk)) == Ok::<
        Option<RecoverView>,
        crate::error::Refusal,
    >(None)
}

/// A recovery ends, after three steps for each image and four more at most. It
/// succeeds where nothing fails, and one that succeeds leaves nothing behind:
/// the images are the originals, or, of an import that was through, the new
/// ones, and another recovery finds nothing to do.
pub proof fn recoveries_leave_nothing_behind(
    x: ImportView,
    first: Disk,
    stages: Seq<RecoverView>,
    disks: Seq<Disk>,
    events: Seq<EventView>,
)
    requires
        valid_import(x),
        !path::lies_under(x.stamp, staging_at(x)),
        recovery_runs(x, stages, disks, events),
        recoverable(x, first, disks[0]),
    ensures
        events.len() <= 3 * x.images.len() + 4,
        stages.last().stage is Finished && nothing_fails(x, stages, events) ==> stages.last().stage
            == RecoverStageView::Finished(Ok(())),
        stages.last().stage == RecoverStageView::Finished(Ok(())) ==> recovered(
            x,
            first,
            disks[0],
            disks.last(),
        ),
{
    lemma_recovery_run(x, first, stages, disks, events, events.len() as int);
    if let RecoverStageView::Finished(Ok(done)) = stages.last().stage {
        assert(done == ());
    }
    if stages.last().stage == RecoverStageView::Finished(Ok(())) {
        let last = disks.last();
        assert forall|i: int| 0 <= i < x.images.len() && !disks[0].journal->0.committed implies #[trigger] original(
            x,
            first,
            last,
            i,
        ) by {}
        assert forall|i: int| 0 <= i < x.images.len() implies if disks[0].journal->0.committed {
            #[trigger] renewed(x, first, last, i)
        } else {
            original(x, first, last, i)
        } by {}
    }
}

proof fn lemma_commit_elsewhere(
    x: ImportView,
    first: Disk,
    m: CommitView,
    before: Disk,
    event: EventView,
    after: Disk,
)
    requires
        valid_import(x),
        !path::lies_under(x.stamp, staging_at(x)),
        commit_holds(x, first, m, before),
        elsewhere(x, first, before),
        same_file(first, before, x.stamp),
        journal::commit_asks(m) is Some,
        happens(x, before, journal::commit_asks(m)->0, event, after),
    ensures
        elsewhere(x, first, after),
        same_file(first, after, x.stamp),
{
    lemma_laid_out(x);
    let i = match m.stage {
        CommitStageView::Backup(i) => i,
        CommitStageView::Place(i) => i,
        CommitStageView::Undo(i, _) => i,
        CommitStageView::Restore(i, _) => i,
        _ => -1,
    };
    if i >= 0 {
        assert(m.staged[i] == (image_at(x, i), staged_at(x, i)));
        assert(image_at(x, i) != x.stamp);
        assert(path::lies_under(kept_at(x, i), staging_at(x)));
        assert(path::lies_under(staged_at(x, i), staging_at(x)));
    }
    assert(same_file(before, after, x.stamp));
    assert forall|p: Seq<char>|
        !path::lies_under(p, staging_at(x)) && p != journal_at(x) && p != x.stamp && (forall|i: int|
            0 <= i < x.images.len() ==> p != #[trigger] image_at(x, i)) implies #[trigger] same_file(
        first,
        after,
        p,
    ) by {
        assert(same_file(first, before, p));
        if i >= 0 {
            assert(p != image_at(x, i));
        }
    }
}

/// A commit from its start on, as far as it came: every action it asked for
/// happened, and it was told what came of it.
pub open spec fn commit_runs(
    x: ImportView,
    stages: Seq<CommitView>,
    disks: Seq<Disk>,
    events: Seq<EventView>,
) -> bool {
    let staged = Seq::new(x.images.len(), |i: int| (image_at(x, i), staged_at(x, i)));
    &&& stages.len() == events.len() + 1
    &&& disks.len() == events.len() + 1
    &&& journal::commit_of(x.bx.dir, staging_at(x), staged) == Ok::<_, crate::error::Refusal>(
        stages[0],
    )
    &&& disks[0].journal == Some(
        JournalView { staging: x.staging, entries: Seq::empty(), committed: false },
    )
    &&& forall|i: int| 0 <= i < x.images.len() ==> #[trigger] none_kept(x, disks[0], i)
    &&& forall|k: int|
        0 <= k < events.len() ==> {
            &&& journal::commit_asks(stages[k]) is Some
            &&& happens(
                x,
                disks[k],
                journal::commit_asks(stages[k])->0,
                #[trigger] events[k],
                disks[k + 1],
            )
            &&& stages[k + 1] == journal::commit_after(stages[k], events[k])
        }
}

proof fn lemma_commit_run(
    x: ImportView,
    stages: Seq<CommitView>,
    disks: Seq<Disk>,
    events: Seq<EventView>,
    k: int,
)
    requires
        valid_import(x),
        !path::lies_under(x.stamp, staging_at(x)),
        commit_runs(x, stages, disks, events),
        0 <= k <= events.len(),
    ensures
        commit_holds(x, disks[0], stages[k], disks[k]),
        recoverable(x, disks[0], disks[k]),
        elsewhere(x, disks[0], disks[k]),
        same_file(disks[0], disks[k], x.stamp),
    decreases k,
{
    if k == 0 {
        installations_begin(x, disks[0]);
        lemma_commit_recoverable(x, disks[0], stages[0], disks[0]);
    } else {
        lemma_commit_run(x, stages, disks, events, k - 1);
        let event = events[k - 1];
        every_step_of_a_commit_is_recoverable(
            x,
            disks[0],
            stages[k - 1],
            disks[k - 1],
            event,
            disks[k],
        );
        lemma_commit_elsewhere(x, disks[0], stages[k - 1], disks[k - 1], event, disks[k]);
    }
}

/// An import that was cut off, after however many of its steps and whatever
/// came of them, is recovered: where nothing fails the recovery succeeds, and
/// then every image is what it was before the import, or, once that was through,
/// the new one. Where the import had taken its journal away itself, every image
/// is what it was already.
pub proof fn imports_that_stop_are_recovered(
    x: ImportView,
    commits: Seq<CommitView>,
    before: Seq<Disk>,
    told: Seq<EventView>,
    stages: Seq<RecoverView>,
    disks: Seq<Disk>,
    events: Seq<EventView>,
)
    requires
        valid_import(x),
        !path::lies_under(x.stamp, staging_at(x)),
        commit_runs(x, commits, before, told),
        before.last().journal is Some ==> {
            &&& disks[0] == before.last()
            &&& recovery_runs(x, stages, disks, events)
            &&& stages.last().stage is Finished
            &&& nothing_fails(x, stages, events)
        },
    ensures
        before.last().journal is None ==> forall|i: int|
            0 <= i < x.images.len() ==> #[trigger] original(x, before[0], before.last(), i),
        before.last().journal is Some ==> {
            &&& stages.last().stage == RecoverStageView::Finished(Ok(()))
            &&& recovered(x, before[0], before.last(), disks.last())
            &&& elsewhere(x, before[0], disks.last())
            &&& !drops_stamp(before.last().journal->0) ==> same_file(
                before[0],
                disks.last(),
                x.stamp,
            )
        },
{
    lemma_commit_run(x, commits, before, told, told.len() as int);
    if before.last().journal is Some {
        recoveries_leave_nothing_behind(x, before[0], stages, disks, events);
        assert forall|p: Seq<char>|
            !path::lies_under(p, staging_at(x)) && p != journal_at(x) && p != x.stamp && (forall|i: int|
                0 <= i < x.images.len() ==> p != #[trigger] image_at(x, i)) implies #[trigger] same_file(
            before[0],
            disks.last(),
            p,
        ) by {
            assert(same_file(before[0], before.last(), p));
            assert(same_file(before.last(), disks.last(), p));
        }
    }
}

/// What becomes of a disk under a step of an installation. Reading the journal
/// says what it holds, unless it fails.
pub open spec fn install_happens(
    x: ImportView,
    before: Disk,
    m: InstallView,
    event: InstallEventView,
    after: Disk,
) -> bool {
    match (install::install_asks(m), event) {
        (InstallStepView::Act(action), InstallEventView::Happened(event)) => happens(
            x,
            before,
            action,
            event,
            after,
        ),
        (InstallStepView::ReadJournal, InstallEventView::Read(read)) => after == before && (
        read is Unreadable || read is Malformed || read == read_of(before)),
        _ => false,
    }
}

/// What holds of the disk while an import is installed, by the stage it has
/// reached. Once it has succeeded every image is the new one, nothing is staged
/// and no journal is left; the stamp of a baked root is gone where a new root
/// came in.
pub open spec fn install_holds(x: ImportView, first: Disk, m: InstallView, disk: Disk) -> bool {
    &&& m.bx == x.bx
    &&& m.stamp == x.stamp
    &&& elsewhere(x, first, disk)
    &&& match m.stage {
        InstallStageView::Committing(commit) => {
            &&& commit_holds(x, first, commit, disk)
            &&& same_file(first, disk, x.stamp)
        },
        InstallStageView::Reading => {
            &&& disk.journal is Some
            &&& disk.journal->0.committed
            &&& recoverable(x, first, disk)
            &&& same_file(first, disk, x.stamp)
        },
        InstallStageView::Sweeping(recovery) => {
            &&& recover_holds(x, first, recovery, disk)
            &&& sweeping(x, first, recovery, disk)
            &&& recovery.record.committed
            &&& recover::brings_rootfs(recovery.record) == x.images.contains("rootfs.img"@)
        },
        InstallStageView::Finished(Ok(_)) => {
            &&& disk.journal is None
            &&& forall|i: int| 0 <= i < x.images.len() ==> #[trigger] renewed(x, first, disk, i)
            &&& nothing_staged(x, disk)
            &&& if x.images.contains("rootfs.img"@) {
                !disk.files.contains_key(x.stamp)
            } else {
                same_file(first, disk, x.stamp)
            }
        },
        InstallStageView::Finished(Err(_)) => recoverable(x, first, disk),
    }
}

/// An import whose images are staged, and whose journal names none of them yet,
/// can be installed.
pub proof fn installations_begin(x: ImportView, first: Disk)
    requires
        valid_import(x),
        first.journal == Some(
            JournalView { staging: x.staging, entries: Seq::empty(), committed: false },
        ),
        forall|i: int| 0 <= i < x.images.len() ==> #[trigger] none_kept(x, first, i),
    ensures
        ({
            let staged = Seq::new(x.images.len(), |i: int| (image_at(x, i), staged_at(x, i)));
            let begun = journal::commit_of(x.bx.dir, staging_at(x), staged);
            &&& begun is Ok
            &&& install_holds(
                x,
                first,
                InstallView {
                    bx: x.bx,
                    stamp: x.stamp,
                    stage: InstallStageView::Committing(begun->Ok_0),
                },
                first,
            )
        }),
{
    lemma_laid_out(x);
    let staged = Seq::new(x.images.len(), |i: int| (image_at(x, i), staged_at(x, i)));
    assert(path::one_step(x.staging)) by {
        reveal_strlit(".import.");
        assert(x.staging.take(8) == ".import."@);
        assert(x.staging[1] == x.staging.take(8)[1]);
    }
    path::lemma_components_placed(x.bx.dir, x.staging);
    assert(path::components(staging_at(x)).last() == ComponentView::Normal(x.staging));
    let begun = journal::commit_of(x.bx.dir, staging_at(x), staged)->Ok_0;
    commits_begin_recoverable(x, first, begun);
}

/// Every step of an installation, whatever came of it, leaves nothing lost: it
/// goes on, or it has failed and every original can be brought back, or it has
/// succeeded and every image is the new one. What is not the import's own is
/// never touched.
pub proof fn every_step_of_an_installation_is_recoverable(
    x: ImportView,
    first: Disk,
    m: InstallView,
    before: Disk,
    event: InstallEventView,
    after: Disk,
)
    requires
        valid_import(x),
        !path::lies_under(x.stamp, staging_at(x)),
        install_holds(x, first, m, before),
        install_happens(x, before, m, event, after),
    ensures
        install_holds(x, first, install::install_after(m, event), after),
{
    match m.stage {
        InstallStageView::Committing(commit) => {
            let event = event->Happened_0;
            every_step_of_a_commit_is_recoverable(x, first, commit, before, event, after);
            lemma_commit_elsewhere(x, first, commit, before, event, after);
            lemma_commit_recoverable(x, first, journal::commit_after(commit, event), after);
        },
        InstallStageView::Reading => {
            recovery_begins(x, first, before);
            let record = before.journal->0;
            assert(recover::brings_rootfs(record) == x.images.contains("rootfs.img"@)) by {
                if recover::brings_rootfs(record) {
                    let i = choose|i: int|
                        0 <= i < record.entries.len() && #[trigger] record.entries[i].image
                            == "rootfs.img"@;
                    assert(x.images[i] == "rootfs.img"@);
                }
                if x.images.contains("rootfs.img"@) {
                    let i = choose|i: int| 0 <= i < x.images.len() && x.images[i] == "rootfs.img"@;
                    assert(record.entries[i].image == "rootfs.img"@);
                }
            }
        },
        InstallStageView::Sweeping(recovery) => {
            let event = event->Happened_0;
            every_step_of_a_recovery_is_recoverable(x, first, recovery, before, event, after);
            lemma_sweeping(x, first, first, recovery, before, event, after);
        },
        InstallStageView::Finished(_) => {},
    }
}

} // verus!
