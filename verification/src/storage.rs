//! The images of a box: what it holds, taking them elsewhere and bringing them
//! back.

use crate::error::{self, Error, Refusal};
use crate::ordered::{self, sort_texts};
use crate::path::{self, file_name_of, starts_with};
use crate::render::{self, escape_printable_path};
use crate::state::{self, BoxRef, BoxState, BoxView};
use crate::storage::artifact::BYTES_PER_MIB;
use crate::text::{self, byte_len, contains_text, pad_left, pad_right, same_text, spell};
use vstd::prelude::*;

pub mod artifact;
pub mod install;
pub mod journal;
pub mod laws;
pub mod pack;
pub mod recover;
pub mod recovery;
pub mod travel;
pub mod unpack;

verus! {

/// The images of a box among the files of its state directory: the root, then
/// its volumes in order.
pub open spec fn images_of(bx: BoxView, files: Seq<Seq<char>>) -> Seq<Seq<char>> {
    let volumes = ordered::sorted(state::images_among(bx, files));
    if files.contains("rootfs.img"@) {
        seq![path::placed(bx.dir, "rootfs.img"@)] + volumes
    } else {
        volumes
    }
}

/// The images of a box, of the files that are there.
pub fn list_images_of(bx: &BoxRef, files: &Vec<String>) -> (images: Vec<String>)
    ensures
        text::texts(images@) == images_of(bx@, text::texts(files@)),
{
    let volumes = sort_texts(&bx.volume_images(files));
    if !contains_text(files, crate::state::ROOTFS_FILE) {
        return volumes;
    }
    let mut images: Vec<String> = Vec::new();
    images.push(bx.rootfs_img());
    let ghost first = text::texts(images@);
    proof {
        assert(first =~= seq![path::placed(bx@.dir, "rootfs.img"@)]);
    }
    let mut i: usize = 0;
    proof {
        assert(first =~= first + text::texts(volumes@).take(0));
    }
    while i < volumes.len()
        invariant
            i <= volumes@.len(),
            text::texts(images@) == first + text::texts(volumes@).take(i as int),
        decreases volumes.len() - i,
    {
        let ghost before = images@;
        images.push(volumes[i].as_str().to_owned());
        proof {
            text::lemma_texts_push(before, images@.last());
            assert(text::texts(images@) =~= first + text::texts(volumes@).take(i + 1));
        }
        i = i + 1;
    }
    proof {
        assert(text::texts(volumes@).take(i as int) =~= text::texts(volumes@));
    }
    images
}

/// A number of bytes in MiB, one decimal place, rounded down.
pub open spec fn mib_text(bytes: nat) -> Seq<char> {
    text::decimal(bytes / BYTES_PER_MIB as nat) + "."@ + text::decimal(
        (bytes % BYTES_PER_MIB as nat) * 10 / BYTES_PER_MIB as nat,
    ) + " MiB"@
}

/// Bytes as MiB with one decimal, in whole numbers throughout.
pub fn format_mib(bytes: u64) -> (text: String)
    ensures
        text@ == mib_text(bytes as nat),
{
    let mut text: String = spell(bytes / BYTES_PER_MIB);
    text.append(".");
    text.append(spell((bytes % BYTES_PER_MIB) * 10 / BYTES_PER_MIB).as_str());
    text.append(" MiB");
    text
}

/// What was found of an image: where it is, how long it is and what it takes
/// on disk.
#[derive(Debug)]
pub struct ImageFacts {
    pub path: String,
    pub virtual_bytes: u64,
    pub disk_bytes: u64,
}

#[verifier::ext_equal]
pub struct ImageFactsView {
    pub path: Seq<char>,
    pub virtual_bytes: nat,
    pub disk_bytes: nat,
}

impl View for ImageFacts {
    type V = ImageFactsView;

    open spec fn view(&self) -> ImageFactsView {
        ImageFactsView {
            path: self.path@,
            virtual_bytes: self.virtual_bytes as nat,
            disk_bytes: self.disk_bytes as nat,
        }
    }
}

/// What a list of found images shows.
pub open spec fn facts_of(images: Seq<ImageFacts>) -> Seq<ImageFactsView> {
    Seq::new(images.len(), |i: int| images[i]@)
}

/// What images take on disk together.
pub open spec fn disk_total(images: Seq<ImageFactsView>) -> nat
    decreases images.len(),
{
    if images.len() == 0 {
        0
    } else {
        disk_total(images.drop_last()) + images.last().disk_bytes
    }
}

proof fn lemma_disk_total_grows(images: Seq<ImageFactsView>, k: int)
    requires
        0 <= k <= images.len(),
    ensures
        disk_total(images.take(k)) <= disk_total(images),
    decreases images.len(),
{
    if k == images.len() {
        assert(images.take(k) =~= images);
    } else {
        lemma_disk_total_grows(images.drop_last(), k);
        assert(images.drop_last().take(k) =~= images.take(k));
    }
}

/// The name an image goes by: that of its file.
pub open spec fn image_name(path: Seq<char>) -> Seq<char> {
    match path::file_name(path) {
        Some(name) => name,
        None => path,
    }
}

fn name_of(path: &str) -> (name: String)
    ensures
        name@ == image_name(path@),
{
    match file_name_of(path) {
        Some(name) => name,
        None => path.to_owned(),
    }
}

/// An image as it is listed.
#[derive(Debug)]
pub struct StorageImageEntry {
    pub name: String,
    pub path: String,
    pub virtual_bytes: u64,
    pub disk_bytes: u64,
    pub is_unused: bool,
}

#[verifier::ext_equal]
pub struct ImageEntryView {
    pub name: Seq<char>,
    pub path: Seq<char>,
    pub virtual_bytes: nat,
    pub disk_bytes: nat,
    pub is_unused: bool,
}

impl View for StorageImageEntry {
    type V = ImageEntryView;

    open spec fn view(&self) -> ImageEntryView {
        ImageEntryView {
            name: self.name@,
            path: self.path@,
            virtual_bytes: self.virtual_bytes as nat,
            disk_bytes: self.disk_bytes as nat,
            is_unused: self.is_unused,
        }
    }
}

/// The images of a box as they are listed, and what they take together.
#[derive(Debug)]
pub struct StorageShowOutput {
    pub images: Vec<StorageImageEntry>,
    pub total_disk_bytes: u64,
}

/// How images are listed, given those no volume of the recipe uses.
pub open spec fn listed(images: Seq<ImageFactsView>, unused: Seq<Seq<char>>) -> Seq<ImageEntryView> {
    Seq::new(
        images.len(),
        |i: int|
            ImageEntryView {
                name: image_name(images[i].path),
                path: images[i].path,
                virtual_bytes: images[i].virtual_bytes,
                disk_bytes: images[i].disk_bytes,
                is_unused: unused.contains(images[i].path),
            },
    )
}

pub fn list_storage(images: &Vec<ImageFacts>, unused: &Vec<String>) -> (output: StorageShowOutput)
    requires
        disk_total(facts_of(images@)) <= u64::MAX,
    ensures
        Seq::new(output.images@.len(), |i: int| output.images@[i]@) == listed(
            facts_of(images@),
            text::texts(unused@),
        ),
        output.total_disk_bytes == disk_total(facts_of(images@)),
{
    let ghost facts = facts_of(images@);
    let mut entries: Vec<StorageImageEntry> = Vec::new();
    let mut total: u64 = 0;
    let mut i: usize = 0;
    proof {
        assert(facts.take(0) =~= Seq::empty());
    }
    while i < images.len()
        invariant
            i <= images@.len(),
            facts == facts_of(images@),
            entries@.len() == i,
            forall|k: int|
                0 <= k < i ==> (#[trigger] entries@[k])@ == listed(facts, text::texts(unused@))[k],
            total == disk_total(facts.take(i as int)),
            disk_total(facts) <= u64::MAX,
        decreases images.len() - i,
    {
        proof {
            lemma_disk_total_grows(facts, i + 1);
            assert(facts.take(i + 1).drop_last() =~= facts.take(i as int));
            assert(facts.take(i + 1).last() == images@[i as int]@);
        }
        let image = &images[i];
        total = total + image.disk_bytes;
        entries.push(
            StorageImageEntry {
                name: name_of(image.path.as_str()),
                path: image.path.as_str().to_owned(),
                virtual_bytes: image.virtual_bytes,
                disk_bytes: image.disk_bytes,
                is_unused: contains_text(unused, image.path.as_str()),
            },
        );
        i = i + 1;
    }
    proof {
        assert(facts.take(i as int) =~= facts);
        assert(Seq::new(entries@.len(), |i: int| entries@[i]@) =~= listed(facts, text::texts(unused@)));
    }
    StorageShowOutput { images: entries, total_disk_bytes: total }
}

/// The most bytes the name of an image takes as it is shown.
pub open spec fn name_width(images: Seq<ImageFactsView>) -> nat
    decreases images.len(),
{
    if images.len() == 0 {
        0
    } else {
        let before = name_width(images.drop_last());
        let here = text::utf8_len(render::printable(image_name(images.last().path)));
        if here > before {
            here
        } else {
            before
        }
    }
}

/// The line of one image.
pub open spec fn image_line(
    box_name: Seq<char>,
    width: nat,
    image: ImageFactsView,
    unused: bool,
) -> Seq<char> {
    let note = if unused {
        "  (unused - `terra "@ + box_name + " storage prune` removes it)"@
    } else {
        Seq::empty()
    };
    "  "@ + text::padded_right(render::printable(image_name(image.path)), width) + "  "@ + text::padded_left(
        mib_text(image.virtual_bytes),
        12,
    ) + "  "@ + text::padded_left(mib_text(image.disk_bytes), 12) + " on disk"@ + note + "\n"@
}

/// The lines of all images.
pub open spec fn image_lines(
    box_name: Seq<char>,
    width: nat,
    images: Seq<ImageFactsView>,
    unused: Seq<Seq<char>>,
) -> Seq<char>
    decreases images.len(),
{
    if images.len() == 0 {
        Seq::empty()
    } else {
        image_lines(box_name, width, images.drop_last(), unused) + image_line(
            box_name,
            width,
            images.last(),
            unused.contains(images.last().path),
        )
    }
}

/// The whole listing of a box's images.
pub open spec fn storage_page(
    bx: BoxView,
    state: BoxState,
    images: Seq<ImageFactsView>,
    unused: Seq<Seq<char>>,
) -> Seq<char> {
    let width = name_width(images);
    text::padded_right(state::state_word(state), 12) + " "@ + bx.name + "\n"@ + image_lines(
        bx.name,
        width,
        images,
        unused,
    ) + "  "@ + text::padded_right("total"@, width) + "  "@ + text::padded_left(Seq::empty(), 12) + "  "@
        + text::padded_left(mib_text(disk_total(images)), 12) + " on disk\n"@
}

fn widest_name(images: &Vec<ImageFacts>) -> (width: usize)
    ensures
        width == name_width(facts_of(images@)),
{
    let ghost facts = facts_of(images@);
    let mut width: usize = 0;
    let mut i: usize = 0;
    proof {
        assert(facts.take(0) =~= Seq::empty());
    }
    while i < images.len()
        invariant
            i <= images@.len(),
            facts == facts_of(images@),
            width == name_width(facts.take(i as int)),
        decreases images.len() - i,
    {
        proof {
            assert(facts.take(i + 1).drop_last() =~= facts.take(i as int));
            assert(facts.take(i + 1).last() == images@[i as int]@);
        }
        let name = escape_printable_path(name_of(images[i].path.as_str()).as_str());
        let here: usize = byte_len(name.as_str());
        if here > width {
            width = here;
        }
        i = i + 1;
    }
    proof {
        assert(facts.take(i as int) =~= facts);
    }
    width
}

fn append_image_line(page: &mut String, box_name: &str, width: usize, image: &ImageFacts, unused: bool)
    ensures
        final(page)@ == old(page)@ + image_line(box_name@, width as nat, image@, unused),
{
    let ghost start = page@;
    let name = escape_printable_path(name_of(image.path.as_str()).as_str());
    page.append("  ");
    page.append(pad_right(name.as_str(), width).as_str());
    page.append("  ");
    page.append(pad_left(format_mib(image.virtual_bytes).as_str(), 12).as_str());
    page.append("  ");
    page.append(pad_left(format_mib(image.disk_bytes).as_str(), 12).as_str());
    page.append(" on disk");
    if unused {
        page.append("  (unused - `terra ");
        page.append(box_name);
        page.append(" storage prune` removes it)");
    }
    page.append("\n");
    proof {
        assert(page@ =~= start + image_line(box_name@, width as nat, image@, unused));
    }
}

/// The listing of a box's images.
pub fn render_storage(
    bx: &BoxRef,
    state: BoxState,
    images: &Vec<ImageFacts>,
    unused: &Vec<String>,
) -> (page: String)
    requires
        disk_total(facts_of(images@)) <= u64::MAX,
    ensures
        page@ == storage_page(bx@, state, facts_of(images@), text::texts(unused@)),
{
    let ghost facts = facts_of(images@);
    let width: usize = widest_name(images);
    let mut page: String = pad_right(state.word(), 12);
    page.append(" ");
    page.append(bx.name());
    page.append("\n");
    let ghost head = page@;
    let mut total: u64 = 0;
    let mut i: usize = 0;
    proof {
        assert(facts.take(0) =~= Seq::empty());
        assert(page@ =~= head + image_lines(bx@.name, width as nat, facts.take(0), text::texts(unused@)));
    }
    while i < images.len()
        invariant
            i <= images@.len(),
            facts == facts_of(images@),
            page@ == head + image_lines(
                bx@.name,
                width as nat,
                facts.take(i as int),
                text::texts(unused@),
            ),
            total == disk_total(facts.take(i as int)),
            disk_total(facts) <= u64::MAX,
        decreases images.len() - i,
    {
        proof {
            lemma_disk_total_grows(facts, i + 1);
            assert(facts.take(i + 1).drop_last() =~= facts.take(i as int));
            assert(facts.take(i + 1).last() == images@[i as int]@);
        }
        total = total + images[i].disk_bytes;
        let is_unused = contains_text(unused, images[i].path.as_str());
        append_image_line(&mut page, bx.name(), width, &images[i], is_unused);
        i = i + 1;
        proof {
            assert(page@ =~= head + image_lines(
                bx@.name,
                width as nat,
                facts.take(i as int),
                text::texts(unused@),
            ));
        }
    }
    page.append("  ");
    page.append(pad_right("total", width).as_str());
    page.append("  ");
    page.append(pad_left("", 12).as_str());
    page.append("  ");
    page.append(pad_left(format_mib(total).as_str(), 12).as_str());
    page.append(" on disk\n");
    proof {
        reveal_strlit("");
        assert(""@ =~= Seq::<char>::empty());
        assert(facts.take(i as int) =~= facts);
        assert(page@ =~= storage_page(bx@, state, facts, text::texts(unused@)));
    }
    page
}

/// What is said of a box without images.
pub fn no_images_yet(bx: &BoxRef) -> (line: String)
    ensures
        line@ == "terra: "@ + state::shown(bx@) + " has no images yet - `terra "@ + bx@.name
            + " setup` builds them"@,
{
    let mut line: String = "terra: ".to_owned();
    line.append(bx.describe().as_str());
    line.append(" has no images yet - `terra ");
    line.append(bx.name());
    line.append(" setup` builds them");
    line
}

/// Whether an artifact may be written where it is to go.
pub open spec fn export_verdict(
    to: Seq<char>,
    destination: Seq<char>,
    rename_destination: Option<Seq<char>>,
    box_dir: Seq<char>,
) -> Result<(), Refusal> {
    if path::lies_under(destination, box_dir) || rename_destination is Some && path::lies_under(
        rename_destination->0,
        box_dir,
    ) {
        Err(
            error::refusal(
                "export destination "@ + render::printable(to)
                    + " is inside box state; choose a destination outside "@ + render::printable(
                    box_dir,
                ),
            ),
        )
    } else {
        Ok(())
    }
}

/// Refuses to export into the state of the box itself, whichever way the file
/// gets there. The three places have their links followed.
pub fn check_export_destination(
    to: &str,
    destination: &str,
    rename_destination: &Option<String>,
    box_dir: &str,
) -> (checked: Result<(), Error>)
    ensures
        error::outcome(checked) == export_verdict(
            to@,
            destination@,
            text::text_of(*rename_destination),
            box_dir@,
        ),
{
    let renamed_inside = match rename_destination {
        Some(path) => starts_with(path.as_str(), box_dir),
        None => false,
    };
    if !starts_with(destination, box_dir) && !renamed_inside {
        return Ok(());
    }
    let mut message: String = "export destination ".to_owned();
    message.append(escape_printable_path(to).as_str());
    message.append(" is inside box state; choose a destination outside ");
    message.append(escape_printable_path(box_dir).as_str());
    Err(Error::new(message))
}

/// Whether an image is exported: the root is, and the volumes the recipe
/// names.
pub open spec fn is_exported(bx: BoxView, path: Seq<char>, configured: Seq<Seq<char>>) -> bool {
    path == path::placed(bx.dir, "rootfs.img"@) || exists|i: int|
        0 <= i < configured.len() && path == path::placed(bx.dir, state::volume_file(#[trigger] configured[i]))
}

/// The images among some that are exported.
pub open spec fn exported(bx: BoxView, images: Seq<Seq<char>>, configured: Seq<Seq<char>>) -> Seq<
    Seq<char>,
>
    decreases images.len(),
{
    if images.len() == 0 {
        Seq::empty()
    } else {
        let before = exported(bx, images.drop_last(), configured);
        if is_exported(bx, images.last(), configured) {
            before.push(images.last())
        } else {
            before
        }
    }
}

fn exports(bx: &BoxRef, path: &str, configured: &Vec<String>) -> (yes: bool)
    ensures
        yes == is_exported(bx@, path@, text::texts(configured@)),
{
    if same_text(path, bx.rootfs_img().as_str()) {
        return true;
    }
    let mut i: usize = 0;
    while i < configured.len()
        invariant
            i <= configured@.len(),
            path@ != path::placed(bx@.dir, "rootfs.img"@),
            forall|k: int|
                0 <= k < i ==> path@ != path::placed(
                    bx@.dir,
                    state::volume_file(#[trigger] text::texts(configured@)[k]),
                ),
        decreases configured.len() - i,
    {
        proof {
            assert(text::texts(configured@)[i as int] == configured@[i as int]@);
        }
        if same_text(path, bx.volume_img(configured[i].as_str()).as_str()) {
            return true;
        }
        i = i + 1;
    }
    false
}

/// The images that go into an artifact; there must be one.
pub open spec fn exports_chosen(
    bx: BoxView,
    images: Seq<Seq<char>>,
    configured: Seq<Seq<char>>,
) -> Result<Seq<Seq<char>>, Refusal> {
    if exported(bx, images, configured).len() > 0 {
        Ok(exported(bx, images, configured))
    } else {
        Err(
            error::refusal(
                state::shown(bx) + " has no images to export - `terra "@ + bx.name
                    + " setup` builds them"@,
            ),
        )
    }
}

/// The images of a box that are exported, or that it has none.
pub fn choose_exports(bx: &BoxRef, images: &Vec<String>, configured: &Vec<String>) -> (chosen: Result<
    Vec<String>,
    Error,
>)
    ensures
        ({
            let expected = exports_chosen(bx@, text::texts(images@), text::texts(configured@));
            match chosen {
                Ok(paths) => expected == Ok::<_, Refusal>(text::texts(paths@)),
                Err(error) => expected == Err::<Seq<Seq<char>>, _>(error@),
            }
        }),
{
    let mut chosen: Vec<String> = Vec::new();
    let mut i: usize = 0;
    proof {
        assert(text::texts(images@).take(0) =~= Seq::empty());
        assert(text::texts(chosen@) =~= Seq::empty());
    }
    while i < images.len()
        invariant
            i <= images@.len(),
            text::texts(chosen@) == exported(bx@, text::texts(images@).take(i as int), text::texts(configured@)),
        decreases images.len() - i,
    {
        let ghost before = chosen@;
        proof {
            let more = text::texts(images@).take(i + 1);
            assert(more.drop_last() =~= text::texts(images@).take(i as int));
            assert(more.last() == images@[i as int]@);
        }
        if exports(bx, images[i].as_str(), configured) {
            chosen.push(images[i].as_str().to_owned());
            proof {
                text::lemma_texts_push(before, chosen@.last());
            }
        }
        i = i + 1;
    }
    proof {
        assert(text::texts(images@).take(i as int) =~= text::texts(images@));
        assert(text::texts(chosen@).len() == chosen@.len());
    }
    if chosen.len() == 0 {
        let mut message: String = bx.describe();
        message.append(" has no images to export - `terra ");
        message.append(bx.name());
        message.append(" setup` builds them");
        return Err(Error::new(message));
    }
    Ok(chosen)
}

/// The warnings of an import: one for each image the artifact did not carry.
pub open spec fn kept_warnings(bx: BoxView, images: Seq<Seq<char>>, restored: Seq<Seq<char>>) -> Seq<
    Seq<char>,
>
    decreases images.len(),
{
    if images.len() == 0 {
        Seq::empty()
    } else {
        let before = kept_warnings(bx, images.drop_last(), restored);
        if restored.contains(images.last()) {
            before
        } else {
            before.push(
                "terra: warning: keeping "@ + render::printable(images.last())
                    + " - the artifact did not carry it (`terra "@ + bx.name
                    + " storage prune` removes it if the recipe no longer names that volume)"@,
            )
        }
    }
}

pub fn warn_of_kept_images(bx: &BoxRef, images: &Vec<String>, restored: &Vec<String>) -> (warnings: Vec<
    String,
>)
    ensures
        text::texts(warnings@) == kept_warnings(bx@, text::texts(images@), text::texts(restored@)),
{
    let mut warnings: Vec<String> = Vec::new();
    let mut i: usize = 0;
    proof {
        assert(text::texts(images@).take(0) =~= Seq::empty());
        assert(text::texts(warnings@) =~= Seq::empty());
    }
    while i < images.len()
        invariant
            i <= images@.len(),
            text::texts(warnings@) == kept_warnings(
                bx@,
                text::texts(images@).take(i as int),
                text::texts(restored@),
            ),
        decreases images.len() - i,
    {
        let ghost before = warnings@;
        proof {
            let more = text::texts(images@).take(i + 1);
            assert(more.drop_last() =~= text::texts(images@).take(i as int));
            assert(more.last() == images@[i as int]@);
        }
        if !contains_text(restored, images[i].as_str()) {
            let mut line: String = "terra: warning: keeping ".to_owned();
            line.append(escape_printable_path(images[i].as_str()).as_str());
            line.append(" - the artifact did not carry it (`terra ");
            line.append(bx.name());
            line.append(" storage prune` removes it if the recipe no longer names that volume)");
            warnings.push(line);
            proof {
                text::lemma_texts_push(before, warnings@.last());
            }
        }
        i = i + 1;
    }
    proof {
        assert(text::texts(images@).take(i as int) =~= text::texts(images@));
    }
    warnings
}

} // verus!
