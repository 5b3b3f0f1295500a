//! Why images travel whole: what is packed from one box is unpacked for another
//! byte for byte, however the artifact is read.

use crate::bytes;
use crate::config::{ConfigView, VolumeView};
use crate::error::Refusal;
use crate::ordered;
use crate::path::{self, ComponentView};
use crate::state::{self, BoxView};
use crate::storage;
use crate::storage::artifact::{self, AdmittedView, BYTES_PER_MIB, HeaderView};
use crate::storage::install::{
    self, InstallEventView, InstallStageView, InstallStepView, InstallView,
};
use crate::storage::journal::{self, CommitStageView, JournalView};
use crate::storage::pack::{self, PackEventView, PackStageView, PackStepView, PackView};
use crate::storage::recover;
use crate::storage::recovery::{self, Disk, ImportView};
use crate::storage::unpack::{self, UnpackEventView, UnpackStageView, UnpackStepView, UnpackView};
use crate::text;
use vstd::prelude::*;

verus! {

/// Images by name, with their bytes.
pub type Images = Seq<(Seq<char>, Seq<u8>)>;

pub open spec fn names_of(images: Images) -> Seq<Seq<char>> {
    Seq::new(images.len(), |i: int| images[i].0)
}

/// What a box with a recipe makes of the images of an artifact, announced one
/// after another.
pub open spec fn admitted_of(bx: BoxView, cfg: ConfigView, from: Seq<char>, images: Images) -> Result<
    AdmittedView,
    Refusal,
>
    decreases images.len(),
{
    if images.len() == 0 {
        Ok(AdmittedView { names: Seq::empty(), total: 0 })
    } else {
        match admitted_of(bx, cfg, from, images.drop_last()) {
            Ok(so_far) => artifact::admission(
                bx,
                cfg,
                from,
                so_far,
                images.last().0,
                images.last().1.len() as u64,
            ),
            Err(error) => Err(error),
        }
    }
}

/// What is still to be read of an artifact, what the open file holds, and what
/// has been placed.
#[verifier::ext_equal]
pub struct Unpacking {
    pub left: Seq<u8>,
    pub open: Seq<u8>,
    pub files: Map<Seq<char>, Seq<u8>>,
}

/// A file cut to a length, or filled up to it with zeros.
pub open spec fn resized(bytes: Seq<u8>, len: nat) -> Seq<u8> {
    Seq::new(
        len,
        |i: int|
            if i < bytes.len() {
                bytes[i]
            } else {
                0
            },
    )
}

/// What comes of what is asked for where nothing fails. Reading gives at most
/// what was asked for, in any portions, and nothing only at the end.
pub open spec fn unpack_happens(
    m: UnpackView,
    before: Unpacking,
    event: UnpackEventView,
    after: Unpacking,
) -> bool {
    match (unpack::unpack_asks(m), event) {
        (UnpackStepView::Read(wanted), UnpackEventView::Read(chunk)) => {
            &&& chunk.len() <= wanted
            &&& chunk.len() <= before.left.len()
            &&& chunk.len() == 0 ==> before.left.len() == 0
            &&& chunk == before.left.take(chunk.len() as int)
            &&& after == (Unpacking { left: before.left.skip(chunk.len() as int), ..before })
        },
        (UnpackStepView::Read(_), UnpackEventView::Interrupted) => after == before,
        (UnpackStepView::Create(_), UnpackEventView::Done) => after == (Unpacking {
            open: Seq::empty(),
            ..before
        }),
        (UnpackStepView::Append(bytes), UnpackEventView::Done) => after == (Unpacking {
            open: before.open + bytes,
            ..before
        }),
        (UnpackStepView::Resize(len), UnpackEventView::Done) => after == (Unpacking {
            open: resized(before.open, len as nat),
            ..before
        }),
        (UnpackStepView::Place(path), UnpackEventView::Done) => after == (Unpacking {
            files: before.files.insert(path, before.open),
            ..before
        }),
        _ => false,
    }
}

/// Whether the first so many images are placed.
pub open spec fn placed(m: UnpackView, images: Images, disk: Unpacking, n: int) -> bool {
    forall|i: int|
        #![trigger images[i]]
        0 <= i < n ==> disk.files.contains_key(path::placed(m.staging_dir, images[i].0))
            && disk.files[path::placed(m.staging_dir, images[i].0)] == images[i].1
}

/// Whether an image is on its way: the last one announced, of which so many
/// bytes have been read.
pub open spec fn on_its_way(
    m: UnpackView,
    images: Images,
    disk: Unpacking,
    name: Seq<char>,
    len: u64,
    n: int,
) -> bool {
    let k = m.admitted.names.len();
    &&& k > 0
    &&& images[k - 1].0 == name
    &&& images[k - 1].1.len() == len
    &&& 0 <= n <= len
    &&& placed(m, images, disk, k - 1)
    &&& disk.left == images[k - 1].1.skip(n) + artifact::packed(images.skip(k as int))
}

/// What holds while the images of an artifact are taken out of it.
pub open spec fn unpack_holds(images: Images, m: UnpackView, disk: Unpacking) -> bool {
    let k = m.admitted.names.len();
    &&& unpack::unpack_stands(m)
    &&& k <= images.len()
    &&& admitted_of(m.bx, m.cfg, m.from, images.take(k as int)) == Ok::<_, Refusal>(m.admitted)
    &&& match m.stage {
        UnpackStageView::Mark(bytes) => {
            &&& k == 0
            &&& bytes + disk.left == unpack::mark() + artifact::packed(images)
        },
        UnpackStageView::Head(bytes) => {
            &&& placed(m, images, disk, k as int)
            &&& bytes + disk.left == artifact::packed(images.skip(k as int))
        },
        UnpackStageView::Creating(name, len) => on_its_way(m, images, disk, name, len, 0),
        UnpackStageView::Receiving(name, len, written) => {
            &&& on_its_way(m, images, disk, name, len, written as int)
            &&& disk.open == images[k - 1].1.take(written as int)
        },
        UnpackStageView::Appending(name, len, written, chunk) => {
            &&& on_its_way(m, images, disk, name, len, written + chunk.len())
            &&& chunk.len() > 0
            &&& disk.open == images[k - 1].1.take(written as int)
            &&& chunk == images[k - 1].1.subrange(written as int, written + chunk.len())
        },
        UnpackStageView::Sizing(name, len) => {
            &&& on_its_way(m, images, disk, name, len, len as int)
            &&& disk.open == images[k - 1].1
        },
        UnpackStageView::Placing(name, len) => {
            &&& on_its_way(m, images, disk, name, len, len as int)
            &&& disk.open == images[k - 1].1
        },
        UnpackStageView::Finished(Ok(names)) => {
            &&& names == names_of(images)
            &&& placed(m, images, disk, images.len() as int)
        },
        UnpackStageView::Finished(Err(_)) => false,
    }
}

/// Whether an artifact can carry an image.
pub open spec fn carries(image: (Seq<char>, Seq<u8>)) -> bool {
    text::utf8_len(image.0) <= u16::MAX && image.1.len() <= u64::MAX
}

/// What the admission of images says of all that came so far.
proof fn lemma_admitted(bx: BoxView, cfg: ConfigView, from: Seq<char>, images: Images, k: int)
    requires
        admitted_of(bx, cfg, from, images) is Ok,
        0 <= k <= images.len(),
    ensures
        admitted_of(bx, cfg, from, images.take(k)) is Ok,
        admitted_of(bx, cfg, from, images.take(k))->Ok_0.names == names_of(images.take(k)),
        artifact::fit(bx, cfg, admitted_of(bx, cfg, from, images.take(k))->Ok_0),
        k < images.len() ==> admitted_of(bx, cfg, from, images.take(k + 1)) == artifact::admission(
            bx,
            cfg,
            from,
            admitted_of(bx, cfg, from, images.take(k))->Ok_0,
            images[k].0,
            images[k].1.len() as u64,
        ),
    decreases images.len(),
{
    if k < images.len() {
        assert(images.take(k + 1).drop_last() =~= images.take(k));
        assert(images.take(k + 1).last() == images[k]);
    }
    if k == images.len() {
        assert(images.take(k) =~= images);
        if k > 0 {
            let before = images.drop_last();
            lemma_admitted(bx, cfg, from, before, k - 1);
            assert(before.take(k - 1) =~= before);
            let so_far = admitted_of(bx, cfg, from, before)->Ok_0;
            artifact::only_fitting_images_are_admitted(
                bx,
                cfg,
                from,
                so_far,
                images.last().0,
                images.last().1.len() as u64,
            );
            assert(names_of(images) =~= names_of(before).push(images.last().0));
        } else {
            assert(names_of(images) =~= Seq::empty());
        }
    } else {
        lemma_admitted(bx, cfg, from, images.drop_last(), k);
        assert(images.drop_last().take(k) =~= images.take(k));
    }
}

#[verifier::spinoff_prover]
#[verifier::rlimit(60)]
proof fn lemma_head_step(
    images: Images,
    m: UnpackView,
    before: Unpacking,
    event: UnpackEventView,
    after: Unpacking,
)
    requires
        forall|i: int| 0 <= i < images.len() ==> carries(#[trigger] images[i]),
        images.len() > 0,
        admitted_of(m.bx, m.cfg, m.from, images) is Ok,
        m.stage is Head,
        event is Read,
        unpack_holds(images, m, before),
        unpack_happens(m, before, event, after),
    ensures
        unpack_holds(images, unpack::unpack_after(m, event), after),
{
    let k = m.admitted.names.len() as int;
    let bytes = m.stage->Head_0;
    let chunk = event->Read_0;
    let rest = images.skip(k);
    let stream = artifact::packed(rest);
    lemma_admitted(m.bx, m.cfg, m.from, images, k);
    if k == images.len() {
        assert(stream =~= Seq::empty());
        assert(bytes.len() == 0 && before.left.len() == 0);
        assert(images.take(k) =~= images);
        assert(names_of(images).len() == images.len());
    } else {
        let (name, content) = images[k];
        assert(rest[0] == images[k]);
        assert(carries(images[k]));
        assert(rest.drop_first() =~= images.skip(k + 1));
        let header = artifact::entry_header(name, content.len());
        let behind = content + artifact::packed(images.skip(k + 1));
        assert(stream =~= header + behind);
        artifact::headers_are_read_back(name, content.len() as u64, behind);
        artifact::headers_are_read_back(name, content.len() as u64, Seq::empty());
        assert(header + Seq::<u8>::empty() =~= header);
        assert(artifact::header_size(stream) == header.len());
        assert(header.len() >= 10);
        assert(stream.len() == bytes.len() + before.left.len());
        if bytes.len() >= 10 {
            assert(bytes.take(2) =~= stream.take(2));
        }
        assert(chunk.len() > 0) by {
            assert(bytes.len() < header.len());
        }
        let got = bytes + chunk;
        assert(bytes::at_most(chunk, unpack::bytes_wanted(m.stage)) == chunk);
        assert(got.len() <= header.len());
        assert(got =~= stream.take(got.len() as int));
        assert(got + after.left =~= stream);
        if got.len() >= 10 {
            assert(got.take(2) =~= stream.take(2));
        }
        if unpack::head_left(got) <= 0 {
            assert(got.len() == header.len());
            assert(got =~= header);
            assert(artifact::header_in(got) == HeaderView::Entry { name, len: content.len() });
            assert(after.left =~= stream.skip(got.len() as int)) by {
                assert(stream.skip(got.len() as int) =~= (got + after.left).skip(got.len() as int));
            }
            assert(stream.skip(header.len() as int) =~= behind);
            assert(after.left == behind);
            assert(content.skip(0) =~= content);
            lemma_admitted(m.bx, m.cfg, m.from, images, k + 1);
            assert(names_of(images.take(k + 1)).len() == k + 1);
        }
    }
}

proof fn lemma_place_step(
    images: Images,
    m: UnpackView,
    before: Unpacking,
    event: UnpackEventView,
    after: Unpacking,
)
    requires
        admitted_of(m.bx, m.cfg, m.from, images) is Ok,
        m.stage is Placing,
        unpack_holds(images, m, before),
        unpack_happens(m, before, event, after),
    ensures
        unpack_holds(images, unpack::unpack_after(m, event), after),
{
    let k = m.admitted.names.len() as int;
    let name = m.stage->Placing_0;
    let next = unpack::unpack_after(m, event);
    lemma_admitted(m.bx, m.cfg, m.from, images, k);
    let names = m.admitted.names;
    let place = BoxView { dir: m.staging_dir, ..m.bx };
    assert(names == names_of(images.take(k)));
    assert forall|i: int| 0 <= i < k implies #[trigger] names[i] == images[i].0 && path::components(
        path::placed(m.staging_dir, names[i]),
    ).last() == ComponentView::Normal(names[i]) by {
        assert(images.take(k)[i] == images[i]);
        assert(state::named_image(m.bx, names[i]) is Some);
        state::named_images_lie_in_the_box(place, names[i]);
    }
    assert(names[k - 1] == name);
    assert forall|i: int| #![trigger images[i]] 0 <= i < k implies after.files.contains_key(
        path::placed(m.staging_dir, images[i].0),
    ) && after.files[path::placed(m.staging_dir, images[i].0)] == images[i].1 by {
        assert(names[i] == images[i].0);
        if i < k - 1 {
            assert(names[i] != names[k - 1]);
            assert(path::placed(m.staging_dir, names[i]) != path::placed(m.staging_dir, name));
        }
    }
    let content = images[k - 1].1;
    assert(content.skip(content.len() as int) =~= Seq::empty());
    assert(Seq::<u8>::empty() + after.left =~= artifact::packed(images.skip(k)));
}

/// Every step that takes images out of an artifact, where nothing fails, keeps
/// to the images that were packed into it: those announced so far are placed
/// byte for byte, or on their way. An artifact whose images the recipe admits is
/// never refused.
pub proof fn every_step_unpacks_what_was_packed(
    images: Images,
    m: UnpackView,
    before: Unpacking,
    event: UnpackEventView,
    after: Unpacking,
)
    requires
        forall|i: int| 0 <= i < images.len() ==> carries(#[trigger] images[i]),
        images.len() > 0,
        admitted_of(m.bx, m.cfg, m.from, images) is Ok,
        unpack_holds(images, m, before),
        unpack_happens(m, before, event, after),
    ensures
        unpack_holds(images, unpack::unpack_after(m, event), after),
        unpack::unpack_after(m, event).stage is Finished ==> unpack::unpack_after(m, event).stage
            == UnpackStageView::Finished(Ok(names_of(images))),
{
    let k = m.admitted.names.len() as int;
    let next = unpack::unpack_after(m, event);
    if event is Interrupted {
    } else {
        match m.stage {
            UnpackStageView::Mark(bytes) => {
                unpack::marks_have_one_length();
                let chunk = event->Read_0;
                let got = bytes + chunk;
                let stream = unpack::mark() + artifact::packed(images);
                assert(bytes::at_most(chunk, unpack::bytes_wanted(m.stage)) == chunk);
                assert(stream.len() == bytes.len() + before.left.len());
                assert(got + after.left =~= stream);
                if got.len() == 16 {
                    assert(got =~= stream.take(16));
                    assert(stream.take(16) =~= unpack::mark());
                    assert(images.skip(0) =~= images);
                    assert(Seq::<u8>::empty() + after.left =~= stream.skip(16));
                    assert(stream.skip(16) =~= artifact::packed(images));
                }
            },
            UnpackStageView::Head(_) => lemma_head_step(images, m, before, event, after),
            UnpackStageView::Creating(_, len) => {
                let content = images[k - 1].1;
                assert(content.take(0) =~= Seq::empty());
                if len == 0 {
                    assert(content =~= Seq::empty());
                }
            },
            UnpackStageView::Receiving(_, len, written) => {
                let chunk = event->Read_0;
                let content = images[k - 1].1;
                let behind = artifact::packed(images.skip(k));
                assert(bytes::at_most(chunk, unpack::bytes_wanted(m.stage)) == chunk);
                assert(before.left.len() > 0);
                assert(chunk =~= content.subrange(written as int, written + chunk.len()));
                assert(after.left =~= content.skip(written + chunk.len()) + behind);
            },
            UnpackStageView::Appending(_, len, written, chunk) => {
                let content = images[k - 1].1;
                assert(after.open =~= content.take(written + chunk.len()));
                if written + chunk.len() == len {
                    assert(content.take(len as int) =~= content);
                }
            },
            UnpackStageView::Sizing(_, len) => {
                assert(resized(before.open, len as nat) =~= before.open);
            },
            UnpackStageView::Placing(_, _) => lemma_place_step(images, m, before, event, after),
            UnpackStageView::Finished(_) => {},
        }
    }
}

/// Taking images out of an artifact that was packed from them begins well.
pub proof fn unpacking_begins(images: Images, m: UnpackView, disk: Unpacking)
    requires
        artifact::total_limit(m.cfg) <= u64::MAX,
        m.admitted == (AdmittedView { names: Seq::empty(), total: 0 }),
        m.stage == UnpackStageView::Mark(Seq::empty()),
        disk.left == unpack::mark() + artifact::packed(images),
    ensures
        unpack_holds(images, m, disk),
{
    assert(images.take(0) =~= Seq::empty());
    assert(Seq::<u8>::empty() + disk.left =~= disk.left);
}

/// How many bytes images take together.
pub open spec fn total_of(images: Images) -> nat
    decreases images.len(),
{
    if images.len() == 0 {
        0
    } else {
        total_of(images.drop_last()) + images.last().1.len()
    }
}

/// Whether a recipe has room for an image: a box can hold it, the recipe names
/// it, and it is no larger than the recipe allows.
pub open spec fn has_room(bx: BoxView, cfg: ConfigView, image: (Seq<char>, Seq<u8>)) -> bool {
    &&& state::named_image(bx, image.0) is Some
    &&& artifact::image_limit(cfg, image.0) is Some
    &&& image.1.len() <= artifact::image_limit(cfg, image.0)->0
}

proof fn lemma_total_without(images: Images, j: int)
    requires
        0 <= j < images.len(),
    ensures
        total_of(images) == total_of(images.remove(j)) + images[j].1.len(),
    decreases images.len(),
{
    if j == images.len() - 1 {
        assert(images.remove(j) =~= images.drop_last());
    } else {
        lemma_total_without(images.drop_last(), j);
        assert(images.remove(j).drop_last() =~= images.drop_last().remove(j));
        assert(images.remove(j).last() == images.last());
    }
}

proof fn lemma_volumes_limit_first(volumes: Seq<VolumeView>)
    requires
        volumes.len() > 0,
    ensures
        artifact::volumes_limit(volumes) == (volumes[0].size_mib * BYTES_PER_MIB) as nat
            + artifact::volumes_limit(volumes.drop_first()),
    decreases volumes.len(),
{
    if volumes.len() == 1 {
        assert(volumes.drop_last() =~= Seq::empty());
        assert(volumes.drop_first() =~= Seq::empty());
    } else {
        lemma_volumes_limit_first(volumes.drop_last());
        assert(volumes.drop_last().drop_first() =~= volumes.drop_first().drop_last());
    }
}

/// The volume an image file is named for.
spec fn volume_in(name: Seq<char>) -> Seq<char> {
    name.subrange(4, name.len() - 4)
}

spec fn fits_volume(volumes: Seq<VolumeView>, image: (Seq<char>, Seq<u8>)) -> bool {
    &&& artifact::volume_limit(volumes, volume_in(image.0)) is Some
    &&& image.1.len() <= artifact::volume_limit(volumes, volume_in(image.0))->0
}

/// Images of different volumes, each within its limit, are within the limit of
/// all volumes.
proof fn lemma_volumes_total(volumes: Seq<VolumeView>, images: Images)
    requires
        forall|i: int| 0 <= i < images.len() ==> #[trigger] fits_volume(volumes, images[i]),
        forall|i: int, j: int|
            0 <= i < images.len() && 0 <= j < images.len() && i != j ==> volume_in(
                (#[trigger] images[i]).0,
            ) != volume_in((#[trigger] images[j]).0),
    ensures
        total_of(images) <= artifact::volumes_limit(volumes),
    decreases volumes.len(),
{
    if images.len() == 0 {
    } else if volumes.len() == 0 {
        assert(fits_volume(volumes, images[0]));
    } else {
        let first = volumes[0].name;
        let rest = volumes.drop_first();
        lemma_volumes_limit_first(volumes);
        if exists|j: int| 0 <= j < images.len() && volume_in((#[trigger] images[j]).0) == first {
            let j = choose|j: int|
                0 <= j < images.len() && volume_in((#[trigger] images[j]).0) == first;
            let others = images.remove(j);
            lemma_total_without(images, j);
            assert(fits_volume(volumes, images[j]));
            assert forall|i: int| 0 <= i < others.len() implies #[trigger] fits_volume(
                rest,
                others[i],
            ) by {
                let from = if i < j { i } else { i + 1 };
                assert(others[i] == images[from]);
                assert(fits_volume(volumes, images[from]));
                assert(volume_in(images[from].0) != volume_in(images[j].0));
            }
            assert forall|a: int, b: int|
                0 <= a < others.len() && 0 <= b < others.len() && a != b implies volume_in(
                (#[trigger] others[a]).0,
            ) != volume_in((#[trigger] others[b]).0) by {
                let from_a = if a < j { a } else { a + 1 };
                let from_b = if b < j { b } else { b + 1 };
                assert(others[a] == images[from_a] && others[b] == images[from_b]);
            }
            lemma_volumes_total(rest, others);
        } else {
            assert forall|i: int| 0 <= i < images.len() implies #[trigger] fits_volume(
                rest,
                images[i],
            ) by {
                assert(fits_volume(volumes, images[i]));
                assert(volume_in(images[i].0) != first);
            }
            lemma_volumes_total(rest, images);
        }
    }
}

/// Different images for which a recipe has room are together within what it
/// allows all of them.
proof fn lemma_total_fits(bx: BoxView, cfg: ConfigView, images: Images)
    requires
        forall|i: int| 0 <= i < images.len() ==> has_room(bx, cfg, #[trigger] images[i]),
        names_of(images).no_duplicates(),
    ensures
        total_of(images) <= artifact::total_limit(cfg),
{
    let names = names_of(images);
    if names.contains("rootfs.img"@) {
        let j = choose|j: int| 0 <= j < names.len() && names[j] == "rootfs.img"@;
        let others = images.remove(j);
        lemma_total_without(images, j);
        assert(has_room(bx, cfg, images[j]));
        assert forall|i: int| 0 <= i < others.len() implies has_room(bx, cfg, #[trigger] others[i])
            && others[i].0 != "rootfs.img"@ by {
            let from = if i < j { i } else { i + 1 };
            assert(others[i] == images[from]);
            assert(names[from] != names[j]);
        }
        assert forall|a: int, b: int|
            0 <= a < others.len() && 0 <= b < others.len() && a != b implies (
        #[trigger] others[a]).0 != (#[trigger] others[b]).0 by {
            let from_a = if a < j { a } else { a + 1 };
            let from_b = if b < j { b } else { b + 1 };
            assert(others[a] == images[from_a] && others[b] == images[from_b]);
            assert(names[from_a] != names[from_b]);
        }
        lemma_volume_images_total(bx, cfg, others);
    } else {
        assert forall|i: int| 0 <= i < images.len() implies has_room(bx, cfg, #[trigger] images[i])
            && images[i].0 != "rootfs.img"@ by {
            assert(names[i] == images[i].0);
            assert(names.contains(names[i]));
        }
        assert forall|a: int, b: int|
            0 <= a < images.len() && 0 <= b < images.len() && a != b implies (
        #[trigger] images[a]).0 != (#[trigger] images[b]).0 by {
            assert(names[a] != names[b]);
        }
        lemma_volume_images_total(bx, cfg, images);
    }
}

proof fn lemma_volume_images_total(bx: BoxView, cfg: ConfigView, images: Images)
    requires
        forall|i: int|
            0 <= i < images.len() ==> has_room(bx, cfg, #[trigger] images[i]) && images[i].0
                != "rootfs.img"@,
        forall|a: int, b: int|
            0 <= a < images.len() && 0 <= b < images.len() && a != b ==> (#[trigger] images[a]).0
                != (#[trigger] images[b]).0,
    ensures
        total_of(images) <= artifact::volumes_limit(cfg.volumes),
{
    reveal_strlit("vol-");
    reveal_strlit(".img");
    assert forall|i: int| 0 <= i < images.len() implies #[trigger] fits_volume(
        cfg.volumes,
        images[i],
    ) && images[i].0 =~= state::volume_file(volume_in(images[i].0)) by {
        let name = images[i].0;
        assert(has_room(bx, cfg, images[i]));
        assert(name.take(4) == "vol-"@);
        assert(name.skip(name.len() - 4) == ".img"@);
        assert forall|c: int| 0 <= c < name.len() implies name[c] == state::volume_file(
            volume_in(name),
        )[c] by {
            if c < 4 {
                assert(name[c] == name.take(4)[c]);
            } else if c >= name.len() - 4 {
                assert(name[c] == name.skip(name.len() - 4)[c - (name.len() - 4)]);
            }
        }
    }
    assert forall|a: int, b: int|
        0 <= a < images.len() && 0 <= b < images.len() && a != b implies volume_in(
        (#[trigger] images[a]).0,
    ) != volume_in((#[trigger] images[b]).0) by {
        assert(fits_volume(cfg.volumes, images[a]) && fits_volume(cfg.volumes, images[b]));
    }
    lemma_volumes_total(cfg.volumes, images);
}

/// A recipe admits every artifact of different images for which it has room.
pub proof fn images_with_room_are_admitted(
    bx: BoxView,
    cfg: ConfigView,
    from: Seq<char>,
    images: Images,
)
    requires
        artifact::total_limit(cfg) <= u64::MAX,
        forall|i: int| 0 <= i < images.len() ==> has_room(bx, cfg, #[trigger] images[i]),
        names_of(images).no_duplicates(),
    ensures
        admitted_of(bx, cfg, from, images) == Ok::<_, Refusal>(
            AdmittedView { names: names_of(images), total: total_of(images) },
        ),
    decreases images.len(),
{
    lemma_total_fits(bx, cfg, images);
    if images.len() > 0 {
        let before = images.drop_last();
        let names = names_of(before);
        assert(names_of(images) =~= names.push(images.last().0));
        assert forall|i: int, j: int|
            0 <= i < names.len() && 0 <= j < names.len() && i != j implies names[i] != names[j] by {
            assert(names_of(images)[i] != names_of(images)[j]);
        }
        assert(!names.contains(images.last().0)) by {
            if names.contains(images.last().0) {
                let i = choose|i: int| 0 <= i < names.len() && names[i] == images.last().0;
                assert(names_of(images)[i] != names_of(images)[images.len() - 1]);
            }
        }
        assert forall|i: int| 0 <= i < before.len() implies has_room(bx, cfg, #[trigger] before[i]) by {
            assert(before[i] == images[i]);
        }
        images_with_room_are_admitted(bx, cfg, from, before);
        assert(has_room(bx, cfg, images.last()));
    } else {
        assert(names_of(images) =~= Seq::empty());
    }
}

/// The images of an artifact taken out of it, from the first byte to the last,
/// where nothing fails.
pub open spec fn unpack_runs(
    stages: Seq<UnpackView>,
    disks: Seq<Unpacking>,
    events: Seq<UnpackEventView>,
) -> bool {
    &&& stages.len() == events.len() + 1
    &&& disks.len() == events.len() + 1
    &&& stages[0].admitted == (AdmittedView { names: Seq::empty(), total: 0 })
    &&& stages[0].stage == UnpackStageView::Mark(Seq::empty())
    &&& stages.last().stage is Finished
    &&& forall|k: int|
        0 <= k < events.len() ==> {
            &&& unpack_happens(stages[k], disks[k], #[trigger] events[k], disks[k + 1])
            &&& stages[k + 1] == unpack::unpack_after(stages[k], events[k])
        }
}

proof fn lemma_unpack_run(
    images: Images,
    stages: Seq<UnpackView>,
    disks: Seq<Unpacking>,
    events: Seq<UnpackEventView>,
    k: int,
)
    requires
        images.len() > 0,
        forall|i: int| 0 <= i < images.len() ==> carries(#[trigger] images[i]),
        unpack_runs(stages, disks, events),
        artifact::total_limit(stages[0].cfg) <= u64::MAX,
        admitted_of(stages[0].bx, stages[0].cfg, stages[0].from, images) is Ok,
        disks[0].left == unpack::mark() + artifact::packed(images),
        0 <= k <= events.len(),
    ensures
        unpack_holds(images, stages[k], disks[k]),
        stages[k].bx == stages[0].bx,
        stages[k].cfg == stages[0].cfg,
        stages[k].from == stages[0].from,
        stages[k].staging_dir == stages[0].staging_dir,
    decreases k,
{
    if k == 0 {
        unpacking_begins(images, stages[0], disks[0]);
    } else {
        lemma_unpack_run(images, stages, disks, events, k - 1);
        let event = events[k - 1];
        every_step_unpacks_what_was_packed(
            images,
            stages[k - 1],
            disks[k - 1],
            event,
            disks[k],
        );
    }
}

/// An artifact of images a recipe has room for is taken out whole: where nothing
/// fails it is not refused, however it is read, and every image is staged under
/// its name, byte for byte.
pub proof fn artifacts_are_unpacked_whole(
    images: Images,
    stages: Seq<UnpackView>,
    disks: Seq<Unpacking>,
    events: Seq<UnpackEventView>,
)
    requires
        images.len() > 0,
        forall|i: int|
            0 <= i < images.len() ==> carries(#[trigger] images[i]) && has_room(
                stages[0].bx,
                stages[0].cfg,
                images[i],
            ),
        names_of(images).no_duplicates(),
        artifact::total_limit(stages[0].cfg) <= u64::MAX,
        unpack_runs(stages, disks, events),
        disks[0].left == unpack::mark() + artifact::packed(images),
    ensures
        stages.last().stage == UnpackStageView::Finished(Ok(names_of(images))),
        placed(stages[0], images, disks.last(), images.len() as int),
{
    images_with_room_are_admitted(stages[0].bx, stages[0].cfg, stages[0].from, images);
    lemma_unpack_run(images, stages, disks, events, events.len() as int);
}

/// What comes of what an installation asks for where nothing fails.
pub open spec fn goes_well(x: ImportView, m: InstallView, event: InstallEventView) -> bool {
    match (install::install_asks(m), event) {
        (InstallStepView::Act(action), InstallEventView::Happened(event)) => recovery::succeeds(
            x,
            action,
            event,
        ),
        (InstallStepView::ReadJournal, InstallEventView::Read(read)) => read is Missing
            || read is Found,
        _ => false,
    }
}

/// Whether an installation has not failed so far.
pub open spec fn goes_on(m: InstallView) -> bool {
    match m.stage {
        InstallStageView::Committing(commit) => !(commit.stage is Undo) && !(commit.stage is Restore)
            && !(commit.stage is Forget),
        InstallStageView::Reading => true,
        InstallStageView::Sweeping(recovery) => recovery.stage is Stamp || recovery.stage is Sync
            || recovery.stage is Staging || recovery.stage is Journal,
        InstallStageView::Finished(result) => result is Ok,
    }
}

proof fn lemma_goes_on(
    x: ImportView,
    first: Disk,
    m: InstallView,
    before: Disk,
    event: InstallEventView,
    after: Disk,
)
    requires
        recovery::valid_import(x),
        recovery::install_holds(x, first, m, before),
        recovery::install_happens(x, before, m, event, after),
        goes_well(x, m, event),
        goes_on(m),
    ensures
        goes_on(install::install_after(m, event)),
{
    match m.stage {
        InstallStageView::Committing(commit) => {
            if let CommitStageView::Survey(i) = commit.stage {
                assert(commit.staged[i] == (recovery::image_at(x, i), recovery::staged_at(x, i)));
                state::named_images_lie_in_the_box(x.bx, x.images[i]);
                assert(path::components(recovery::image_at(x, i)).last() == ComponentView::Normal(
                    x.images[i],
                ));
            }
        },
        _ => {},
    }
}

/// An installation from its start to its end.
pub open spec fn install_runs(
    x: ImportView,
    stages: Seq<InstallView>,
    disks: Seq<Disk>,
    events: Seq<InstallEventView>,
) -> bool {
    let staged = Seq::new(
        x.images.len(),
        |i: int| (recovery::image_at(x, i), recovery::staged_at(x, i)),
    );
    let begun = journal::commit_of(x.bx.dir, recovery::staging_at(x), staged);
    &&& stages.len() == events.len() + 1
    &&& disks.len() == events.len() + 1
    &&& begun is Ok
    &&& stages[0] == (InstallView {
        bx: x.bx,
        stamp: x.stamp,
        stage: InstallStageView::Committing(begun->Ok_0),
    })
    &&& stages.last().stage is Finished
    &&& forall|k: int|
        0 <= k < events.len() ==> {
            &&& recovery::install_happens(
                x,
                disks[k],
                stages[k],
                #[trigger] events[k],
                disks[k + 1],
            )
            &&& stages[k + 1] == install::install_after(stages[k], events[k])
        }
}

proof fn lemma_install_run(
    x: ImportView,
    stages: Seq<InstallView>,
    disks: Seq<Disk>,
    events: Seq<InstallEventView>,
    k: int,
)
    requires
        recovery::valid_import(x),
        !path::lies_under(x.stamp, recovery::staging_at(x)),
        disks[0].journal == Some(
            JournalView { staging: x.staging, entries: Seq::empty(), committed: false },
        ),
        forall|i: int| 0 <= i < x.images.len() ==> #[trigger] recovery::none_kept(x, disks[0], i),
        install_runs(x, stages, disks, events),
        0 <= k <= events.len(),
    ensures
        recovery::install_holds(x, disks[0], stages[k], disks[k]),
        (forall|j: int|
            0 <= j < events.len() ==> goes_well(x, stages[j], #[trigger] events[j])) ==> goes_on(
            stages[k],
        ),
    decreases k,
{
    if k == 0 {
        recovery::installations_begin(x, disks[0]);
    } else {
        lemma_install_run(x, stages, disks, events, k - 1);
        let event = events[k - 1];
        recovery::every_step_of_an_installation_is_recoverable(
            x,
            disks[0],
            stages[k - 1],
            disks[k - 1],
            event,
            disks[k],
        );
        if forall|j: int| 0 <= j < events.len() ==> goes_well(x, stages[j], #[trigger] events[j]) {
            assert(goes_well(x, stages[k - 1], event));
            lemma_goes_on(x, disks[0], stages[k - 1], disks[k - 1], event, disks[k]);
        }
    }
}

/// Images travel from box to box: what was packed is taken out for a box whose
/// recipe has room for it, and once it is installed every image lies in the box
/// under its name, byte for byte, and every other file of the box is as it was,
/// the stamp of a baked root aside. Where nothing fails the import succeeds;
/// where something does, no original is lost.
pub proof fn images_travel_from_box_to_box(
    images: Images,
    x: ImportView,
    unpacks: Seq<UnpackView>,
    streams: Seq<Unpacking>,
    reads: Seq<UnpackEventView>,
    installs: Seq<InstallView>,
    disks: Seq<Disk>,
    events: Seq<InstallEventView>,
)
    requires
        images.len() > 0,
        forall|i: int|
            0 <= i < images.len() ==> carries(#[trigger] images[i]) && has_room(
                x.bx,
                unpacks[0].cfg,
                images[i],
            ),
        names_of(images).no_duplicates(),
        artifact::total_limit(unpacks[0].cfg) <= u64::MAX,
        unpack_runs(unpacks, streams, reads),
        unpacks[0].bx == x.bx,
        unpacks[0].staging_dir == recovery::staging_at(x),
        streams[0].left == unpack::mark() + artifact::packed(images),
        recovery::valid_import(x),
        !path::lies_under(x.stamp, recovery::staging_at(x)),
        unpacks.last().stage == UnpackStageView::Finished(Ok(x.images)),
        forall|p: Seq<char>| #[trigger]
            streams.last().files.contains_key(p) ==> disks[0].files.contains_key(p)
                && disks[0].files[p] == streams.last().files[p],
        disks[0].journal == Some(
            JournalView { staging: x.staging, entries: Seq::empty(), committed: false },
        ),
        forall|i: int| 0 <= i < x.images.len() ==> #[trigger] recovery::none_kept(x, disks[0], i),
        install_runs(x, installs, disks, events),
    ensures
        x.images == names_of(images),
        installs.last().stage matches InstallStageView::Finished(result) && (if result is Ok {
            &&& forall|i: int|
                #![trigger images[i]]
                0 <= i < images.len() ==> disks.last().files.contains_key(
                    path::placed(x.bx.dir, images[i].0),
                ) && disks.last().files[path::placed(x.bx.dir, images[i].0)] == images[i].1
            &&& recovery::nothing_staged(x, disks.last())
            &&& disks.last().journal is None
        } else {
            recovery::recoverable(x, disks[0], disks.last())
        }),
        recovery::elsewhere(x, disks[0], disks.last()),
        (forall|k: int|
            0 <= k < events.len() ==> goes_well(x, installs[k], #[trigger] events[k]))
            ==> (installs.last().stage matches InstallStageView::Finished(Ok(_))),
{
    artifacts_are_unpacked_whole(images, unpacks, streams, reads);
    lemma_install_run(x, installs, disks, events, events.len() as int);
    let last = disks.last();
    if installs.last().stage is Finished && installs.last().stage->Finished_0 is Ok {
        assert forall|i: int| #![trigger images[i]] 0 <= i < images.len() implies last.files.contains_key(
            path::placed(x.bx.dir, images[i].0),
        ) && last.files[path::placed(x.bx.dir, images[i].0)] == images[i].1 by {
            assert(names_of(images)[i] == images[i].0);
            assert(x.images[i] == images[i].0);
            assert(recovery::renewed(x, disks[0], last, i));
            let staged = recovery::staged_at(x, i);
            assert(streams.last().files.contains_key(staged));
        }
    }
}

/// What is packed of a box: the images that are exported of it, under the names
/// they have there.
pub open spec fn exports_of(
    bx: BoxView,
    files: Seq<Seq<char>>,
    configured: Seq<Seq<char>>,
    contents: Map<Seq<char>, Seq<u8>>,
) -> Images {
    images_at(storage::exported(bx, storage::images_of(bx, files), configured), contents)
}

/// Whether a path is that of a file in a box.
spec fn among(bx: BoxView, files: Seq<Seq<char>>, path: Seq<char>) -> bool {
    exists|f: int| 0 <= f < files.len() && path == path::placed(bx.dir, #[trigger] files[f])
}

proof fn lemma_file_names(bx: BoxView, files: Seq<Seq<char>>, f: int)
    requires
        forall|f: int| 0 <= f < files.len() ==> path::one_step(#[trigger] files[f]),
        0 <= f < files.len(),
    ensures
        path::file_name(path::placed(bx.dir, files[f])) == Some(files[f]),
{
    path::lemma_components_placed(bx.dir, files[f]);
    assert(path::components(path::placed(bx.dir, files[f])).last() == ComponentView::Normal(
        files[f],
    ));
}

proof fn lemma_images_among(bx: BoxView, files: Seq<Seq<char>>)
    requires
        forall|f: int| 0 <= f < files.len() ==> path::one_step(#[trigger] files[f]),
        files.no_duplicates(),
    ensures
        state::images_among(bx, files).no_duplicates(),
        forall|p: Seq<char>| #[trigger]
            state::images_among(bx, files).contains(p) ==> exists|f: int|
                0 <= f < files.len() && p == path::placed(bx.dir, #[trigger] files[f])
                    && state::is_volume_file(files[f]),
        forall|f: int|
            0 <= f < files.len() && state::is_volume_file(#[trigger] files[f])
                ==> state::images_among(bx, files).contains(path::placed(bx.dir, files[f])),
    decreases files.len(),
{
    if files.len() > 0 {
        let init = files.drop_last();
        let before = state::images_among(bx, init);
        let all = state::images_among(bx, files);
        lemma_images_among(bx, init);
        let last = path::placed(bx.dir, files.last());
        assert forall|p: Seq<char>| #[trigger] before.contains(p) implies p != last && exists|f: int|
            0 <= f < files.len() && p == path::placed(bx.dir, #[trigger] files[f])
                && state::is_volume_file(files[f]) by {
            let f = choose|f: int|
                0 <= f < init.len() && p == path::placed(bx.dir, #[trigger] init[f])
                    && state::is_volume_file(init[f]);
            assert(files[f] == init[f]);
            lemma_file_names(bx, files, f);
            lemma_file_names(bx, files, files.len() - 1);
            assert(files[f] != files[files.len() - 1]);
        }
        assert forall|p: Seq<char>| #[trigger] all.contains(p) implies exists|f: int|
            0 <= f < files.len() && p == path::placed(bx.dir, #[trigger] files[f])
                && state::is_volume_file(files[f]) by {
            let k = choose|k: int| 0 <= k < all.len() && all[k] == p;
            if k < before.len() {
                assert(before.contains(before[k]));
            } else {
                assert(p == path::placed(bx.dir, files[files.len() - 1]));
            }
        }
        assert forall|i: int, j: int| 0 <= i < all.len() && 0 <= j < all.len() && i != j implies all[i]
            != all[j] by {
            if i == before.len() {
                assert(before.contains(before[j]));
            } else if j == before.len() {
                assert(before.contains(before[i]));
            }
        }
        assert forall|f: int|
            0 <= f < files.len() && state::is_volume_file(#[trigger] files[f]) implies all.contains(
            path::placed(bx.dir, files[f]),
        ) by {
            if f < init.len() {
                assert(init[f] == files[f]);
                let k = choose|k: int| 0 <= k < before.len() && before[k] == path::placed(bx.dir, files[f]);
                assert(all[k] == before[k]);
            } else {
                assert(all[before.len() as int] == last);
            }
        }
    }
}

proof fn lemma_exported(bx: BoxView, images: Seq<Seq<char>>, configured: Seq<Seq<char>>)
    requires
        images.no_duplicates(),
    ensures
        storage::exported(bx, images, configured).no_duplicates(),
        forall|p: Seq<char>| #[trigger]
            storage::exported(bx, images, configured).contains(p) ==> images.contains(p),
        forall|i: int|
            0 <= i < images.len() && storage::is_exported(bx, #[trigger] images[i], configured)
                ==> storage::exported(bx, images, configured).contains(images[i]),
    decreases images.len(),
{
    if images.len() > 0 {
        let init = images.drop_last();
        let before = storage::exported(bx, init, configured);
        let all = storage::exported(bx, images, configured);
        lemma_exported(bx, init, configured);
        assert forall|p: Seq<char>| #[trigger] before.contains(p) implies images.contains(p) && p
            != images.last() by {
            assert(init.contains(p));
            let k = choose|k: int| 0 <= k < init.len() && init[k] == p;
            assert(images[k] == p);
            assert(images[k] != images[images.len() - 1]);
        }
        assert forall|p: Seq<char>| #[trigger] all.contains(p) implies images.contains(p) by {
            let k = choose|k: int| 0 <= k < all.len() && all[k] == p;
            if k < before.len() {
                assert(before.contains(before[k]));
            } else {
                assert(images[images.len() - 1] == p);
            }
        }
        assert forall|i: int, j: int| 0 <= i < all.len() && 0 <= j < all.len() && i != j implies all[i]
            != all[j] by {
            if i == before.len() {
                assert(before.contains(before[j]));
            } else if j == before.len() {
                assert(before.contains(before[i]));
            }
        }
        assert forall|i: int|
            0 <= i < images.len() && storage::is_exported(bx, #[trigger] images[i], configured) implies all.contains(
            images[i],
        ) by {
            if i < init.len() {
                assert(init[i] == images[i]);
                let k = choose|k: int| 0 <= k < before.len() && before[k] == images[i];
                assert(all[k] == before[k]);
            } else {
                assert(all[before.len() as int] == images[i]);
            }
        }
    }
}

/// Whether a file of a box is exported: its root, and the volumes a recipe
/// names.
pub open spec fn goes_out(name: Seq<char>, configured: Seq<Seq<char>>) -> bool {
    name == "rootfs.img"@ || exists|v: int|
        0 <= v < configured.len() && name == state::volume_file(#[trigger] configured[v])
}

/// Every image that is exported of a box goes under the name of its file there,
/// none goes twice, and the root and every volume the recipe names go.
pub proof fn exports_name_each_image_once(
    bx: BoxView,
    files: Seq<Seq<char>>,
    configured: Seq<Seq<char>>,
    contents: Map<Seq<char>, Seq<u8>>,
)
    requires
        forall|f: int| 0 <= f < files.len() ==> path::one_step(#[trigger] files[f]),
        files.no_duplicates(),
    ensures
        names_of(exports_of(bx, files, configured, contents)).no_duplicates(),
        forall|i: int|
            0 <= i < exports_of(bx, files, configured, contents).len() ==> {
                let image = #[trigger] exports_of(bx, files, configured, contents)[i];
                files.contains(image.0) && image.1 == contents[path::placed(bx.dir, image.0)]
            },
        forall|f: int|
            0 <= f < files.len() && goes_out(#[trigger] files[f], configured) ==> names_of(
                exports_of(bx, files, configured, contents),
            ).contains(files[f]),
        forall|i: int|
            0 <= i < storage::exported(bx, storage::images_of(bx, files), configured).len()
                ==> path::file_name(
                #[trigger] storage::exported(bx, storage::images_of(bx, files), configured)[i],
            ) is Some,
{
    reveal_strlit("rootfs.img");
    reveal_strlit("vol-");
    reveal_strlit(".img");
    let volumes = state::images_among(bx, files);
    let images = storage::images_of(bx, files);
    let paths = storage::exported(bx, images, configured);
    let exports = exports_of(bx, files, configured, contents);
    lemma_images_among(bx, files);
    ordered::lemma_sorted(volumes);
    ordered::lemma_sorted_once(volumes);
    let list = ordered::sorted(volumes);
    assert forall|i: int| 0 <= i < list.len() implies among(bx, files, #[trigger] list[i]) && (
    files.contains("rootfs.img"@) ==> list[i] != path::placed(bx.dir, "rootfs.img"@)) by {
        assert(list.contains(list[i]));
        assert(volumes.contains(list[i]));
        let f = choose|f: int|
            0 <= f < files.len() && list[i] == path::placed(bx.dir, #[trigger] files[f])
                && state::is_volume_file(files[f]);
        if files.contains("rootfs.img"@) {
            let r = choose|r: int| 0 <= r < files.len() && files[r] == "rootfs.img"@;
            lemma_file_names(bx, files, f);
            lemma_file_names(bx, files, r);
            assert(files[f].take(4) == "vol-"@);
            assert(files[f][0] == files[f].take(4)[0]);
        }
    }
    assert(images.no_duplicates()) by {
        assert forall|i: int, j: int|
            0 <= i < images.len() && 0 <= j < images.len() && i != j implies images[i]
            != images[j] by {
            if files.contains("rootfs.img"@) {
                if i > 0 {
                    assert(images[i] == list[i - 1]);
                }
                if j > 0 {
                    assert(images[j] == list[j - 1]);
                }
            }
        }
    }
    assert forall|i: int| 0 <= i < images.len() implies among(bx, files, #[trigger] images[i]) by {
        if files.contains("rootfs.img"@) {
            if i > 0 {
                assert(images[i] == list[i - 1]);
            } else {
                let r = choose|r: int| 0 <= r < files.len() && files[r] == "rootfs.img"@;
                assert(images[0] == path::placed(bx.dir, files[r]));
            }
        }
    }
    lemma_exported(bx, images, configured);
    assert forall|i: int| 0 <= i < paths.len() implies files.contains((#[trigger] exports[i]).0)
        && paths[i] == path::placed(bx.dir, exports[i].0) && path::file_name(paths[i]) is Some by {
        assert(paths.contains(paths[i]));
        let k = choose|k: int| 0 <= k < images.len() && images[k] == paths[i];
        assert(among(bx, files, images[k]));
        let f = choose|f: int|
            0 <= f < files.len() && images[k] == path::placed(bx.dir, #[trigger] files[f]);
        lemma_file_names(bx, files, f);
    }
    assert forall|i: int| 0 <= i < paths.len() implies path::file_name(#[trigger] paths[i]) is Some by {
        assert(files.contains(exports[i].0));
    }
    let names = names_of(exports);
    assert forall|i: int, j: int| 0 <= i < names.len() && 0 <= j < names.len() && i != j implies names[i]
        != names[j] by {
        assert(names[i] == exports[i].0 && names[j] == exports[j].0);
        assert(paths[i] != paths[j]);
    }
    assert forall|f: int| 0 <= f < files.len() && goes_out(#[trigger] files[f], configured) implies names.contains(
        files[f],
    ) by {
        let path = path::placed(bx.dir, files[f]);
        if files[f] == "rootfs.img"@ {
            assert(files.contains("rootfs.img"@));
            assert(images[0] == path);
        } else {
            let v = choose|v: int|
                0 <= v < configured.len() && files[f] == state::volume_file(#[trigger] configured[v]);
            assert(files[f].take(4) =~= "vol-"@);
            assert(files[f].skip(files[f].len() - 4) =~= ".img"@);
            assert(volumes.contains(path));
            assert(list.contains(path));
            let k = choose|k: int| 0 <= k < list.len() && list[k] == path;
            if files.contains("rootfs.img"@) {
                assert(images[k + 1] == path);
            }
        }
        let k = choose|k: int| 0 <= k < images.len() && images[k] == path;
        assert(storage::is_exported(bx, images[k], configured));
        let i = choose|i: int| 0 <= i < paths.len() && paths[i] == path;
        lemma_file_names(bx, files, f);
        assert(names[i] == files[f]);
    }
}

/// What an artifact holds so far, and the bytes of every image there is.
#[verifier::ext_equal]
pub struct Packing {
    pub written: Seq<u8>,
    pub contents: Map<Seq<char>, Seq<u8>>,
}

/// What comes of what packing asks for where nothing fails and no image changes.
pub open spec fn pack_happens(
    m: PackView,
    before: Packing,
    event: PackEventView,
    after: Packing,
) -> bool {
    match (pack::pack_asks(m), event) {
        (PackStepView::Write(bytes), PackEventView::Done) => after == (Packing {
            written: before.written + bytes,
            ..before
        }),
        (PackStepView::Measure, PackEventView::Bytes(n)) => {
            &&& after == before
            &&& m.stage matches PackStageView::Measuring(i) && n == before.contents[m.images[i]].len()
        },
        (PackStepView::Copy, PackEventView::Bytes(n)) => {
            &&& m.stage matches PackStageView::Copying(i, _) && {
                let content = before.contents[m.images[i]];
                n == content.len() && after == (Packing {
                    written: before.written + content,
                    ..before
                })
            }
        },
        (PackStepView::Write(_), _) | (PackStepView::Measure, _) | (PackStepView::Copy, _) => false,
        (PackStepView::Nothing, _) => false,
        (_, event) => event is Done && after == before,
    }
}

/// The images at some paths, by the last step of each.
pub open spec fn images_at(paths: Seq<Seq<char>>, contents: Map<Seq<char>, Seq<u8>>) -> Images {
    Seq::new(paths.len(), |i: int| (path::file_name(paths[i])->0, contents[paths[i]]))
}

/// What holds while images are packed: the artifact holds the mark and the
/// images that are through, and what has come of the next one.
pub open spec fn pack_holds(m: PackView, disk: Packing) -> bool {
    let images = images_at(m.images, disk.contents);
    let before = |i: int| unpack::mark() + artifact::packed(images.take(i));
    let header = |i: int| artifact::entry_header(images[i].0, images[i].1.len());
    &&& pack::pack_stands(m)
    &&& match m.stage {
        PackStageView::Marking => disk.written.len() == 0,
        PackStageView::Opening(i) => disk.written == before(i),
        PackStageView::Measuring(i) => disk.written == before(i),
        PackStageView::Heading(i, len, head) => {
            &&& disk.written == before(i)
            &&& len == images[i].1.len()
            &&& head == header(i)
        },
        PackStageView::Copying(i, len) => {
            &&& disk.written == before(i) + header(i)
            &&& len == images[i].1.len()
        },
        PackStageView::Finishing | PackStageView::Flushing => disk.written
            == before(images.len() as int),
        PackStageView::Finished(Ok(_)) => disk.written == before(images.len() as int),
        PackStageView::Finished(Err(_)) => false,
    }
}

proof fn lemma_packed_more(images: Images, i: int)
    requires
        0 <= i < images.len(),
    ensures
        artifact::packed(images.take(i + 1)) == artifact::packed(images.take(i)) + (
        artifact::entry_header(images[i].0, images[i].1.len()) + images[i].1),
    decreases i,
{
    let more = images.take(i + 1);
    if i == 0 {
        assert(more.drop_first() =~= Seq::empty());
        assert(images.take(0) =~= Seq::empty());
        assert(artifact::packed(more) =~= artifact::packed(images.take(0)) + (
        artifact::entry_header(images[0].0, images[0].1.len()) + images[0].1));
    } else {
        let rest = images.drop_first();
        lemma_packed_more(rest, i - 1);
        assert(more.drop_first() =~= rest.take(i));
        assert(images.take(i).drop_first() =~= rest.take(i - 1));
        assert(artifact::packed(more) =~= artifact::packed(images.take(i)) + (
        artifact::entry_header(images[i].0, images[i].1.len()) + images[i].1));
    }
}

/// Packing images never fails where nothing else does, and every step of it
/// keeps to the artifact of those images; once it is through, the artifact is
/// the mark and the images, each behind its header.
pub proof fn every_step_packs_the_images(
    m: PackView,
    before: Packing,
    event: PackEventView,
    after: Packing,
)
    requires
        forall|i: int|
            0 <= i < m.images.len() ==> path::file_name(#[trigger] m.images[i]) is Some && carries(
                images_at(m.images, before.contents)[i],
            ),
        pack_holds(m, before),
        pack_happens(m, before, event, after),
    ensures
        pack_holds(pack::pack_after(m, event), after),
        after.contents == before.contents,
        pack::pack_after(m, event).stage is Finished ==> after.written == unpack::mark()
            + artifact::packed(images_at(m.images, after.contents)),
{
    let images = images_at(m.images, before.contents);
    let next = pack::pack_after(m, event);
    assert(images.take(images.len() as int) =~= images);
    match m.stage {
        PackStageView::Marking => {
            assert(images.take(0) =~= Seq::empty());
            assert(after.written =~= unpack::mark() + artifact::packed(images.take(0)));
        },
        PackStageView::Measuring(i) => {
            assert(carries(images[i]));
        },
        PackStageView::Copying(i, _) => {
            lemma_packed_more(images, i);
            assert(after.written =~= unpack::mark() + artifact::packed(images.take(i + 1)));
        },
        _ => {},
    }
}

/// Images packed, from the mark to the end, where nothing fails.
pub open spec fn pack_runs(
    stages: Seq<PackView>,
    disks: Seq<Packing>,
    events: Seq<PackEventView>,
) -> bool {
    &&& stages.len() == events.len() + 1
    &&& disks.len() == events.len() + 1
    &&& stages[0].stage is Marking
    &&& disks[0].written.len() == 0
    &&& stages.last().stage is Finished
    &&& forall|k: int|
        0 <= k < events.len() ==> {
            &&& pack_happens(stages[k], disks[k], #[trigger] events[k], disks[k + 1])
            &&& stages[k + 1] == pack::pack_after(stages[k], events[k])
        }
}

proof fn lemma_pack_run(
    stages: Seq<PackView>,
    disks: Seq<Packing>,
    events: Seq<PackEventView>,
    k: int,
)
    requires
        forall|i: int|
            0 <= i < stages[0].images.len() ==> path::file_name(#[trigger] stages[0].images[i]) is Some
                && carries(images_at(stages[0].images, disks[0].contents)[i]),
        pack_runs(stages, disks, events),
        0 <= k <= events.len(),
    ensures
        pack_holds(stages[k], disks[k]),
        stages[k].images == stages[0].images,
        disks[k].contents == disks[0].contents,
    decreases k,
{
    if k > 0 {
        lemma_pack_run(stages, disks, events, k - 1);
        let event = events[k - 1];
        every_step_packs_the_images(stages[k - 1], disks[k - 1], event, disks[k]);
    }
}

/// An export writes the artifact of its images and nothing else: the mark, and
/// each image whole behind its name and length. Where nothing fails it succeeds.
pub proof fn exports_write_the_artifact(
    stages: Seq<PackView>,
    disks: Seq<Packing>,
    events: Seq<PackEventView>,
)
    requires
        forall|i: int|
            0 <= i < stages[0].images.len() ==> path::file_name(#[trigger] stages[0].images[i]) is Some
                && carries(images_at(stages[0].images, disks[0].contents)[i]),
        pack_runs(stages, disks, events),
    ensures
        stages.last().stage matches PackStageView::Finished(Ok(_)),
        disks.last().written == unpack::mark() + artifact::packed(
            images_at(stages[0].images, disks[0].contents),
        ),
{
    lemma_pack_run(stages, disks, events, events.len() as int);
    let images = images_at(stages[0].images, disks[0].contents);
    assert(images.take(images.len() as int) =~= images);
}

/// What is exported of a box is in the other box once it was imported there: its
/// root and every volume its recipe names, under the same name and byte for byte,
/// provided the recipe of the other box has room for them. Where nothing fails,
/// neither the export nor the import is refused, and whatever was not carried
/// over is as it was, the stamp of a baked root aside.
pub proof fn exports_are_imported_whole(
    from: BoxView,
    files: Seq<Seq<char>>,
    configured: Seq<Seq<char>>,
    packs: Seq<PackView>,
    artifacts: Seq<Packing>,
    writes: Seq<PackEventView>,
    x: ImportView,
    unpacks: Seq<UnpackView>,
    streams: Seq<Unpacking>,
    reads: Seq<UnpackEventView>,
    installs: Seq<InstallView>,
    disks: Seq<Disk>,
    events: Seq<InstallEventView>,
)
    requires
        forall|f: int| 0 <= f < files.len() ==> path::one_step(#[trigger] files[f]),
        files.no_duplicates(),
        packs[0].images == storage::exported(from, storage::images_of(from, files), configured),
        packs[0].images.len() > 0,
        pack_runs(packs, artifacts, writes),
        ({
            let images = exports_of(from, files, configured, artifacts[0].contents);
            &&& forall|i: int|
                0 <= i < images.len() ==> carries(#[trigger] images[i]) && has_room(
                    x.bx,
                    unpacks[0].cfg,
                    images[i],
                )
            &&& x.images == names_of(images)
        }),
        artifact::total_limit(unpacks[0].cfg) <= u64::MAX,
        unpack_runs(unpacks, streams, reads),
        unpacks[0].bx == x.bx,
        unpacks[0].staging_dir == recovery::staging_at(x),
        streams[0].left == artifacts.last().written,
        recover::names_staging(x.staging),
        forall|i: int| 0 <= i < x.images.len() ==> #[trigger] recovery::image_at(x, i) != x.stamp,
        x.stamp != recovery::journal_at(x),
        !path::lies_under(x.stamp, recovery::staging_at(x)),
        forall|p: Seq<char>| #[trigger]
            streams.last().files.contains_key(p) ==> disks[0].files.contains_key(p)
                && disks[0].files[p] == streams.last().files[p],
        disks[0].journal == Some(
            JournalView { staging: x.staging, entries: Seq::empty(), committed: false },
        ),
        forall|i: int| 0 <= i < x.images.len() ==> #[trigger] recovery::none_kept(x, disks[0], i),
        install_runs(x, installs, disks, events),
        forall|k: int| 0 <= k < events.len() ==> goes_well(x, installs[k], #[trigger] events[k]),
    ensures
        packs.last().stage matches PackStageView::Finished(Ok(_)),
        unpacks.last().stage == UnpackStageView::Finished(Ok(x.images)),
        installs.last().stage matches InstallStageView::Finished(Ok(_)),
        forall|f: int|
            0 <= f < files.len() && goes_out(#[trigger] files[f], configured) ==> {
                let path = path::placed(x.bx.dir, files[f]);
                &&& disks.last().files.contains_key(path)
                &&& disks.last().files[path] == artifacts[0].contents[path::placed(
                    from.dir,
                    files[f],
                )]
            },
        recovery::nothing_staged(x, disks.last()),
        disks.last().journal is None,
        recovery::elsewhere(x, disks[0], disks.last()),
{
    let contents = artifacts[0].contents;
    let images = exports_of(from, files, configured, contents);
    let names = names_of(images);
    exports_name_each_image_once(from, files, configured, contents);
    assert forall|i: int| 0 <= i < packs[0].images.len() implies path::file_name(
        #[trigger] packs[0].images[i],
    ) is Some && carries(images_at(packs[0].images, contents)[i]) by {
        assert(carries(images[i]));
    }
    exports_write_the_artifact(packs, artifacts, writes);
    artifacts_are_unpacked_whole(images, unpacks, streams, reads);
    assert(recovery::valid_import(x)) by {
        assert forall|i: int| 0 <= i < x.images.len() implies state::named_image(
            x.bx,
            #[trigger] x.images[i],
        ) is Some by {
            assert(has_room(x.bx, unpacks[0].cfg, images[i]));
        }
    }
    images_travel_from_box_to_box(images, x, unpacks, streams, reads, installs, disks, events);
    assert forall|f: int| 0 <= f < files.len() && goes_out(#[trigger] files[f], configured) implies {
        let path = path::placed(x.bx.dir, files[f]);
        &&& disks.last().files.contains_key(path)
        &&& disks.last().files[path] == contents[path::placed(from.dir, files[f])]
    } by {
        let i = choose|i: int| 0 <= i < names.len() && names[i] == files[f];
        assert(images[i].0 == files[f]);
    }
}

} // verus!
