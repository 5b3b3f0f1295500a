//! What is told of the images of a box, what an artifact looks like, and which
//! images a recipe lets in.

use crate::config::{ConfigView, VolumeView};
use crate::error::Refusal;
use crate::ordered;
use crate::path;
use crate::state::{self, BoxView};
use crate::storage::artifact::{self, AdmittedView, HeaderView};
use crate::storage::journal::{
    self, ActionView, CommitStageView, CommitView, EntryRecord, EventView, JournalView,
};
use crate::storage::pack::{self, PackEventView, PackStageView, PackStepView, PackView};
use crate::storage::recover::{self, JournalReadView, RecoverView};
use crate::storage::unpack::{self, UnpackEventView, UnpackStageView, UnpackView};
use crate::storage::{self, ImageFactsView};
use crate::text;
use vstd::prelude::*;

verus! {

/// The images of a box are its root, first, and its volumes, in order: every one
/// of them and nothing else.
pub proof fn images_are_the_root_and_the_volumes(bx: BoxView, files: Seq<Seq<char>>, p: Seq<char>)
    ensures
        storage::images_of(bx, files).contains(p) <==> files.contains("rootfs.img"@) && p
            == path::placed(bx.dir, "rootfs.img"@) || state::images_among(bx, files).contains(p),
        files.contains("rootfs.img"@) ==> storage::images_of(bx, files)[0] == path::placed(
            bx.dir,
            "rootfs.img"@,
        ),
{
    let volumes = state::images_among(bx, files);
    ordered::lemma_sorted(volumes);
    let list = ordered::sorted(volumes);
    let all = storage::images_of(bx, files);
    if files.contains("rootfs.img"@) {
        let root = path::placed(bx.dir, "rootfs.img"@);
        assert(all =~= seq![root] + list);
        if all.contains(p) {
            let k = choose|k: int| 0 <= k < all.len() && all[k] == p;
            if k > 0 {
                assert(list[k - 1] == p);
                assert(list.contains(p));
            }
        }
        if p == root {
            assert(all[0] == p);
        }
        if list.contains(p) {
            let k = choose|k: int| 0 <= k < list.len() && list[k] == p;
            assert(all[k + 1] == p);
        }
    }
}

/// Every image is listed with its own sizes, in the order they are found, and as
/// unused exactly where it is one of those.
pub proof fn images_are_listed_with_their_sizes(
    images: Seq<ImageFactsView>,
    unused: Seq<Seq<char>>,
    i: int,
)
    requires
        0 <= i < images.len(),
    ensures
        storage::listed(images, unused).len() == images.len(),
        ({
            let entry = storage::listed(images, unused)[i];
            &&& entry.path == images[i].path
            &&& path::file_name(images[i].path) matches Some(name) ==> entry.name == name
            &&& entry.virtual_bytes == images[i].virtual_bytes
            &&& entry.disk_bytes == images[i].disk_bytes
            &&& entry.is_unused <==> unused.contains(images[i].path)
        }),
{
}

/// What images take on disk is what each of them takes, together.
pub proof fn totals_add_up(images: Seq<ImageFactsView>, more: ImageFactsView)
    ensures
        storage::disk_total(images.push(more)) == storage::disk_total(images) + more.disk_bytes,
        storage::disk_total(Seq::empty()) == 0,
{
    assert(images.push(more).drop_last() =~= images);
}

/// A size is told in MiB, cut after the first decimal place.
pub proof fn sizes_are_told_in_mib(mib: nat, rest: nat)
    requires
        rest < 1048576,
    ensures
        storage::mib_text(mib * 1048576 + rest) == text::decimal(mib) + "."@ + text::decimal(
            rest * 10 / 1048576,
        ) + " MiB"@,
{
    let bytes = mib * 1048576 + rest;
    assert(bytes / 1048576 == mib && bytes % 1048576 == rest) by {
        vstd::arithmetic::div_mod::lemma_fundamental_div_mod_converse(
            bytes as int,
            1048576,
            mib as int,
            rest as int,
        );
    }
}

/// An image that an import did not bring is warned of as kept, each one, and none
/// that it did.
pub proof fn images_that_stay_are_warned_of(
    bx: BoxView,
    images: Seq<Seq<char>>,
    restored: Seq<Seq<char>>,
    image: Seq<char>,
)
    ensures
        storage::kept_warnings(bx, images.push(image), restored).len() == storage::kept_warnings(
            bx,
            images,
            restored,
        ).len() + if restored.contains(image) {
            0int
        } else {
            1
        },
        storage::kept_warnings(bx, Seq::empty(), restored).len() == 0,
{
    assert(images.push(image).drop_last() =~= images);
}

/// What is exported of a box is its root and the volumes its recipe names, in the
/// order they are listed: each of those there is, and nothing else.
pub proof fn exports_are_the_root_and_the_volumes_named(
    bx: BoxView,
    images: Seq<Seq<char>>,
    configured: Seq<Seq<char>>,
    p: Seq<char>,
)
    ensures
        storage::exported(bx, images, configured).contains(p) <==> images.contains(p) && (p
            == path::placed(bx.dir, "rootfs.img"@) || exists|v: int|
            0 <= v < configured.len() && p == path::placed(
                bx.dir,
                "vol-"@ + #[trigger] configured[v] + ".img"@,
            )),
    decreases images.len(),
{
    let all = storage::exported(bx, images, configured);
    assert(storage::is_exported(bx, p, configured) == (p == path::placed(bx.dir, "rootfs.img"@)
        || exists|v: int|
        0 <= v < configured.len() && p == path::placed(
            bx.dir,
            "vol-"@ + #[trigger] configured[v] + ".img"@,
        )));
    if images.len() > 0 {
        let init = images.drop_last();
        let before = storage::exported(bx, init, configured);
        exports_are_the_root_and_the_volumes_named(bx, init, configured, p);
        if all.contains(p) {
            let k = choose|k: int| 0 <= k < all.len() && all[k] == p;
            if k < before.len() {
                assert(before[k] == p);
                let m = choose|m: int| 0 <= m < init.len() && init[m] == p;
                assert(images[m] == p);
            } else {
                assert(images[images.len() - 1] == p);
            }
        }
        if images.contains(p) && storage::is_exported(bx, p, configured) {
            let m = choose|m: int| 0 <= m < images.len() && images[m] == p;
            if m < init.len() {
                assert(init[m] == p);
                let k = choose|k: int| 0 <= k < before.len() && before[k] == p;
                assert(all[k] == p);
            } else {
                assert(all[before.len() as int] == p);
            }
        }
    }
}

/// An artifact names an image by two bytes with the length of its name and eight
/// with its own, the lowest first, and then its name; the image follows.
pub proof fn headers_hold_a_length_and_a_name(name: Seq<char>, len: nat)
    requires
        text::utf8_len(name) < 65536,
        len < 0x1_0000_0000,
    ensures
        ({
            let head = artifact::entry_header(name, len);
            &&& head.len() == 10 + text::utf8_len(name)
            &&& head[0] as int + 256 * (head[1] as int) == text::utf8_len(name)
            &&& head[2] as int + 256 * (head[3] as int) + 65536 * (head[4] as int)
                + 16777216 * (head[5] as int) == len
            &&& head[6] == 0 && head[7] == 0 && head[8] == 0 && head[9] == 0
            &&& head.skip(10) == vstd::utf8::encode_utf8(name)
        }),
{
    let n = text::utf8_len(name);
    let two = artifact::le_bytes(n, 2);
    let eight = artifact::le_bytes(len, 8);
    let head = artifact::entry_header(name, len);
    reveal_with_fuel(artifact::le_bytes, 9);
    assert(two.len() == 2 && eight.len() == 8);
    assert(two[0] as int == n % 256);
    assert(two[1] as int == (n / 256) % 256);
    assert(head[0] == two[0] && head[1] == two[1]);
    let l1 = len / 256;
    let l2 = l1 / 256;
    let l3 = l2 / 256;
    let l4 = l3 / 256;
    assert(l4 == 0);
    assert(eight[0] as int == len % 256);
    assert(eight[1] as int == l1 % 256);
    assert(eight[2] as int == l2 % 256);
    assert(eight[3] as int == l3 % 256);
    assert(eight[4] as int == l4 % 256);
    assert(eight[5] as int == (l4 / 256) % 256);
    assert(eight[6] as int == (l4 / 256 / 256) % 256);
    assert(eight[7] as int == (l4 / 256 / 256 / 256) % 256);
    assert forall|i: int| 0 <= i < 8 implies head[2 + i] == #[trigger] eight[i] by {}
    assert(head[2] == eight[0] && head[3] == eight[1] && head[4] == eight[2] && head[5] == eight[3]
        && head[6] == eight[4] && head[7] == eight[5] && head[8] == eight[6] && head[9]
        == eight[7]);
    assert(head.skip(10) =~= vstd::utf8::encode_utf8(name));
    assert(n == n % 256 + 256 * (n / 256) && n / 256 < 256);
    assert(head[0] as int + 256 * (head[1] as int) == n);
    assert(l3 < 256);
    assert(l2 == l2 % 256 + 256 * (l3 % 256));
    assert(l1 == l1 % 256 + 256 * (l2 % 256) + 65536 * (l3 % 256));
    assert(len == len % 256 + 256 * (l1 % 256) + 65536 * (l2 % 256) + 16777216 * (l3 % 256));
    assert(head.len() == 10 + n);
}

/// An artifact ends only where nothing follows; a header that is cut short is told
/// apart from that.
pub proof fn short_artifacts_are_noticed(stream: Seq<u8>)
    ensures
        artifact::header_in(stream) is End <==> stream.len() == 0,
        0 < stream.len() < 10 ==> artifact::header_in(stream) is Short,
        artifact::header_in(stream) matches HeaderView::Entry { .. } ==> stream.len() >= 10,
{
}

/// An image may take what the recipe gives it: the root what the machine's root
/// is given, and a volume what that volume is; any other image may not come in.
pub proof fn images_may_take_what_the_recipe_gives_them(cfg: ConfigView, volume: Seq<char>)
    requires
        volume.len() > 0,
    ensures
        artifact::image_limit(cfg, "rootfs.img"@) == Some((cfg.hw.rootfs_mib * 1048576) as nat),
        match artifact::image_limit(cfg, "vol-"@ + volume + ".img"@) {
            Some(limit) => exists|v: int|
                0 <= v < cfg.volumes.len() && (#[trigger] cfg.volumes[v]).name == volume && limit
                    == (cfg.volumes[v].size_mib * 1048576) as nat,
            None => forall|v: int|
                0 <= v < cfg.volumes.len() ==> (#[trigger] cfg.volumes[v]).name != volume,
        },
{
    reveal_strlit("rootfs.img");
    reveal_strlit("vol-");
    reveal_strlit(".img");
    let name = "vol-"@ + volume + ".img"@;
    assert(name[0] == 'v');
    assert(name != "rootfs.img"@);
    assert(name.take(4) =~= "vol-"@);
    assert(name.skip(name.len() - 4) =~= ".img"@);
    assert(name.subrange(4, name.len() - 4) =~= volume);
    lemma_volume_limit(cfg.volumes, volume);
}

proof fn lemma_volume_limit(volumes: Seq<VolumeView>, name: Seq<char>)
    ensures
        match artifact::volume_limit(volumes, name) {
            Some(limit) => exists|v: int|
                0 <= v < volumes.len() && (#[trigger] volumes[v]).name == name && limit == (
                volumes[v].size_mib * 1048576) as nat,
            None => forall|v: int|
                0 <= v < volumes.len() ==> (#[trigger] volumes[v]).name != name,
        },
    decreases volumes.len(),
{
    if volumes.len() > 0 {
        let rest = volumes.drop_first();
        lemma_volume_limit(rest, name);
        if volumes[0].name == name {
            assert(volumes[0].name == name);
        } else {
            match artifact::volume_limit(rest, name) {
                Some(limit) => {
                    let v = choose|v: int|
                        0 <= v < rest.len() && (#[trigger] rest[v]).name == name && limit == (
                        rest[v].size_mib * 1048576) as nat;
                    assert(volumes[v + 1] == rest[v]);
                },
                None => {
                    assert forall|v: int| 0 <= v < volumes.len() implies (
                    #[trigger] volumes[v]).name != name by {
                        if v > 0 {
                            assert(rest[v - 1] == volumes[v]);
                        }
                    }
                },
            }
        }
    }
}

/// All images together may take what the recipe gives its root and its volumes.
pub proof fn limits_add_up_volume_by_volume(cfg: ConfigView, volume: VolumeView)
    ensures
        artifact::total_limit(
            ConfigView { volumes: cfg.volumes.push(volume), ..cfg },
        ) == artifact::total_limit(cfg) + volume.size_mib * 1048576,
        artifact::total_limit(ConfigView { volumes: Seq::empty(), ..cfg }) == cfg.hw.rootfs_mib
            * 1048576,
{
    assert(cfg.volumes.push(volume).drop_last() =~= cfg.volumes);
}

/// An image is let in exactly where a box can hold one of its name, none of that
/// name came before, the recipe has room for it, and for all of them together; and
/// then it is the last of those that came.
pub proof fn images_are_let_in_where_there_is_room(
    bx: BoxView,
    cfg: ConfigView,
    from: Seq<char>,
    so_far: AdmittedView,
    name: Seq<char>,
    len: u64,
)
    ensures
        match artifact::admission(bx, cfg, from, so_far, name, len) {
            Ok(more) => {
                &&& more.names == so_far.names.push(name)
                &&& more.total == so_far.total + len
                &&& state::named_image(bx, name) is Some
                &&& !so_far.names.contains(name)
                &&& artifact::image_limit(cfg, name) is Some
                &&& len <= artifact::image_limit(cfg, name)->0
                &&& more.total <= artifact::total_limit(cfg)
            },
            Err(_) => {
                ||| state::named_image(bx, name) is None
                ||| so_far.names.contains(name)
                ||| artifact::image_limit(cfg, name) is None
                ||| len > artifact::image_limit(cfg, name)->0
                ||| so_far.total + len > artifact::total_limit(cfg)
                ||| so_far.total + len > u64::MAX
            },
        },
{
}

/// An artifact may go anywhere but into the directory of a box, by whichever of
/// its paths it gets there.
pub proof fn artifacts_stay_out_of_boxes(
    to: Seq<char>,
    destination: Seq<char>,
    rename_destination: Option<Seq<char>>,
    box_dir: Seq<char>,
)
    ensures
        storage::export_verdict(to, destination, rename_destination, box_dir) is Ok <==> {
            &&& !path::lies_under(destination, box_dir)
            &&& rename_destination matches Some(other) ==> !path::lies_under(other, box_dir)
        },
{
}

/// What goes into an artifact are the images of the box that its recipe names;
/// without any there is none.
pub proof fn artifacts_hold_something(
    bx: BoxView,
    images: Seq<Seq<char>>,
    configured: Seq<Seq<char>>,
)
    ensures
        storage::exports_chosen(bx, images, configured) is Ok <==> storage::exported(
            bx,
            images,
            configured,
        ).len() > 0,
        storage::exports_chosen(bx, images, configured) matches Ok(chosen) ==> chosen
            == storage::exported(bx, images, configured),
{
}

/// An artifact is told by the bytes it begins with: the same ones that are
/// written at the start of every artifact, and no others.
pub proof fn artifacts_are_told_by_their_mark(start: Seq<u8>, from: Seq<char>)
    ensures
        artifact::artifact_verdict(start, from) is Ok <==> start == vstd::utf8::encode_utf8(
            artifact::STORAGE_ARTIFACT_MAGIC@,
        ),
{
}

/// An export goes on as long as all goes well: its mark is written, then for
/// one image after the other its header and all that it holds; then it is
/// finished, flushed and done.
pub proof fn exports_go_on_while_all_goes_well(m: PackView, i: int, len: u64)
    requires
        0 <= i < m.images.len(),
        forall|k: int|
            0 <= k < m.images.len() ==> path::file_name(#[trigger] m.images[k]) is Some
                && text::utf8_len(path::file_name(m.images[k])->0) <= u16::MAX,
    ensures
        ({
            let at = |stage: PackStageView| PackView { stage, ..m };
            let after = |stage: PackStageView, event: PackEventView|
                pack::pack_asks(pack::pack_after(at(stage), event));
            let header = artifact::entry_header(path::file_name(m.images[i])->0, len as nat);
            &&& after(PackStageView::Marking, PackEventView::Done) == PackStepView::Open(
                m.images[0],
            )
            &&& after(PackStageView::Opening(i), PackEventView::Done) == PackStepView::Measure
            &&& after(PackStageView::Measuring(i), PackEventView::Bytes(len))
                == PackStepView::Write(header)
            &&& after(PackStageView::Heading(i, len, header), PackEventView::Done)
                == PackStepView::Copy
            &&& i + 1 < m.images.len() ==> after(
                PackStageView::Copying(i, len),
                PackEventView::Bytes(len),
            ) == PackStepView::Open(m.images[i + 1])
            &&& i + 1 == m.images.len() ==> after(
                PackStageView::Copying(i, len),
                PackEventView::Bytes(len),
            ) == PackStepView::Finish
            &&& after(PackStageView::Finishing, PackEventView::Done) == PackStepView::Flush
            &&& pack::pack_after(at(PackStageView::Flushing), PackEventView::Done).stage
                == PackStageView::Finished(Ok(()))
        }),
{
    assert(path::file_name(m.images[i]) is Some);
    assert(path::file_name(m.images[0]) is Some);
    if i + 1 < m.images.len() {
        assert(path::file_name(m.images[i + 1]) is Some);
    }
}

/// What goes wrong ends an export, with why, and so does an image that is not
/// as long as it was.
pub proof fn exports_end_where_something_goes_wrong(
    m: PackView,
    why: Refusal,
    i: int,
    len: u64,
    copied: u64,
)
    requires
        !(m.stage is Finished),
    ensures
        pack::pack_after(m, PackEventView::Failed(why)).stage matches PackStageView::Finished(
            Err(said),
        ) && (said == why || said.len() == why.len() + 1 && said.skip(1) == why),
        m.stage == PackStageView::Copying(i, len) && copied != len ==> (pack::pack_after(
            m,
            PackEventView::Bytes(copied),
        ).stage matches PackStageView::Finished(Err(_))),
{
    if let PackStageView::Finished(Err(said)) = pack::pack_after(
        m,
        PackEventView::Failed(why),
    ).stage {
        if said != why {
            assert(said.skip(1) =~= why);
        }
    }
}

/// Where an artifact ends between two images it is done: with the images that
/// were in it, and refused where there was none. Where it ends inside a header
/// it is refused.
pub proof fn artifacts_end_between_images(m: UnpackView, head: Seq<u8>)
    requires
        m.stage == UnpackStageView::Head(head),
    ensures
        ({
            let ended = unpack::unpack_after(m, UnpackEventView::Read(Seq::empty())).stage;
            &&& head.len() == 0 && m.admitted.names.len() > 0 ==> ended
                == UnpackStageView::Finished(Ok(m.admitted.names))
            &&& head.len() > 0 || m.admitted.names.len() == 0 ==> ended matches
                UnpackStageView::Finished(Err(_))
        }),
{
}

/// Images are put in place only from a directory set apart for an import, and
/// only where there are some.
pub proof fn imports_have_a_directory_of_their_own(
    dir: Seq<char>,
    staging_dir: Seq<char>,
    staged: Seq<(Seq<char>, Seq<char>)>,
)
    ensures
        ({
            let commit = journal::commit_of(dir, staging_dir, staged);
            &&& commit is Ok <==> {
                &&& staged.len() > 0
                &&& path::file_name(staging_dir) is Some
                &&& text::begins_with(path::file_name(staging_dir)->0, ".import."@)
            }
            &&& commit is Ok ==> {
                &&& commit->Ok_0.staged == staged
                &&& commit->Ok_0.staging_dir == staging_dir
                &&& Some(commit->Ok_0.staging) == path::file_name(staging_dir)
                &&& journal::commit_asks(commit->Ok_0) == Some(
                    ActionView::Probe { path: staged[0].0 },
                )
            }
        }),
{
}

/// There is something to recover where a journal is found. One that cannot be
/// read, makes no sense or does not name a directory of an import right in the
/// box is refused.
pub proof fn journals_are_gone_by_where_they_stay_in_the_box(
    bx: BoxView,
    stamp: Seq<char>,
    read: JournalReadView,
)
    ensures
        ({
            let recovery = recover::recovery_of(bx, stamp, read);
            match read {
                JournalReadView::Missing => recovery == Ok::<_, Refusal>(None::<RecoverView>),
                JournalReadView::Unreadable(_) => recovery is Err,
                JournalReadView::Malformed(_) => recovery is Err,
                JournalReadView::Found(record) => {
                    &&& recovery is Ok <==> {
                        &&& text::begins_with(record.staging, ".import."@)
                        &&& !record.staging.contains('/')
                        &&& !record.staging.contains('\\')
                    }
                    &&& recovery is Ok ==> recovery->Ok_0 == Some(
                        recover::recover_start(bx, stamp, record),
                    )
                },
            }
        }),
{
}

/// The root that an import brings is not the one that was baked: once it is in
/// place the stamp goes, for good, before anything else is cleared away. An
/// import without a root leaves the stamp alone.
pub proof fn imported_roots_lose_their_stamp(
    bx: BoxView,
    stamp: Seq<char>,
    record: JournalView,
    i: int,
)
    requires
        record.committed,
    ensures
        ({
            let begun = recover::recover_start(bx, stamp, record);
            let removed = recover::recover_after(begun, EventView::Done);
            let lasting = recover::recover_after(removed, EventView::Done);
            let clear = Some(
                ActionView::RemoveTree { path: path::placed(bx.dir, record.staging) },
            );
            &&& 0 <= i < record.entries.len() && record.entries[i].image == "rootfs.img"@ ==> {
                &&& recover::recover_asks(begun) == Some(ActionView::RemoveFile { path: stamp })
                &&& recover::recover_asks(removed) == Some(ActionView::Sync { path: bx.dir })
                &&& recover::recover_asks(lasting) == clear
            }
            &&& (forall|k: int|
                0 <= k < record.entries.len() ==> (#[trigger] record.entries[k]).image
                    != "rootfs.img"@) ==> recover::recover_asks(begun) == clear
        }),
{
    if 0 <= i < record.entries.len() && record.entries[i].image == "rootfs.img"@ {
        assert(recover::brings_rootfs(record));
    }
    if forall|k: int|
        0 <= k < record.entries.len() ==> (#[trigger] record.entries[k]).image != "rootfs.img"@ {
        assert(!recover::brings_rootfs(record));
    }
}

/// Images are put in place as long as all goes well: each place is looked at,
/// the import is recorded, and then, one after the other, what stands there is
/// put aside and the image takes its place; once all are in place that is
/// recorded too, and the import stands.
pub proof fn imports_go_on_while_all_goes_well(m: CommitView, i: int, why: Seq<char>)
    requires
        0 <= i < m.staged.len(),
        path::file_name(m.staged[i].0) is Some,
    ensures
        ({
            let at = |stage: CommitStageView| CommitView { stage, ..m };
            let after = |stage: CommitStageView, event: EventView|
                journal::commit_asks(journal::commit_after(at(stage), event));
            let n = m.staged.len();
            let place = Some(ActionView::Rename { from: m.staged[i].1, to: m.staged[i].0 });
            let done = journal::commit_after(at(CommitStageView::Mark), EventView::Done);
            let seen = journal::commit_after(at(CommitStageView::Survey(i)), EventView::Done);
            let missed = journal::commit_after(
                at(CommitStageView::Survey(i)),
                EventView::Missing(why),
            );
            &&& i + 1 < n ==> after(CommitStageView::Survey(i), EventView::Done) == Some(
                ActionView::Probe { path: m.staged[i + 1].0 },
            )
            &&& seen.entries == m.entries.push(
                EntryRecord { image: path::file_name(m.staged[i].0)->0, existed: true },
            )
            &&& missed.entries == m.entries.push(
                EntryRecord { image: path::file_name(m.staged[i].0)->0, existed: false },
            )
            &&& i + 1 == n ==> journal::commit_asks(seen) == Some(
                ActionView::Record {
                    path: m.journal,
                    journal: JournalView {
                        staging: m.staging,
                        entries: seen.entries,
                        committed: false,
                    },
                },
            )
            &&& after(CommitStageView::Record, EventView::Done) == Some(
                ActionView::Probe { path: m.staged[0].0 },
            )
            &&& after(CommitStageView::Check(i), EventView::Done) == Some(
                ActionView::Rename {
                    from: m.staged[i].0,
                    to: path::placed(m.staging_dir, "original-"@ + text::decimal(i as nat)),
                },
            )
            &&& after(CommitStageView::Check(i), EventView::Missing(why)) == place
            &&& after(CommitStageView::Backup(i), EventView::Done) == place
            &&& i + 1 < n ==> after(CommitStageView::Place(i), EventView::Done) == Some(
                ActionView::Probe { path: m.staged[i + 1].0 },
            )
            &&& i + 1 == n ==> after(CommitStageView::Place(i), EventView::Done) == Some(
                ActionView::Record {
                    path: m.journal,
                    journal: JournalView {
                        staging: m.staging,
                        entries: m.entries,
                        committed: true,
                    },
                },
            )
            &&& done.stage == CommitStageView::Finished(Ok(()))
        }),
{
}

} // verus!
