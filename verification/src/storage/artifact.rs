//! The file images travel in: a mark, then each image with its name and length
//! in front of it.

use crate::bytes::append_bytes;
use crate::config::{Config, ConfigView, VolumeView};
use crate::error::{self, Error, Refusal, refuse};
use crate::render::{self, escape_printable, escape_printable_path};
use crate::state::{self, BoxRef, BoxView};
use crate::text::{
    self, byte_len, chars_of, clone_texts, contains_text, ends_with, same_text, spell, starts_with,
    text_between,
};
use crate::unicode::{self, decode_utf8};
use vstd::prelude::*;

verus! {

/// What every artifact starts with.
pub const STORAGE_ARTIFACT_MAGIC: &'static str = "terra-storage-1\n";

pub const BYTES_PER_MIB: u64 = 1048576;

/// The number bytes spell, the least of them first.
pub open spec fn number_le(bytes: Seq<u8>) -> nat
    decreases bytes.len(),
{
    if bytes.len() == 0 {
        0
    } else {
        bytes[0] as nat + 256 * number_le(bytes.drop_first())
    }
}

/// A number in so many bytes, the least of them first.
pub open spec fn le_bytes(n: nat, width: nat) -> Seq<u8>
    decreases width,
{
    if width == 0 {
        Seq::empty()
    } else {
        seq![(n % 256) as u8] + le_bytes(n / 256, (width - 1) as nat)
    }
}

/// How many numbers so many bytes can spell.
pub open spec fn le_limit(width: nat) -> nat
    decreases width,
{
    if width == 0 {
        1
    } else {
        256 * le_limit((width - 1) as nat)
    }
}

proof fn lemma_le_round_trip(n: nat, width: nat)
    requires
        n < le_limit(width),
    ensures
        le_bytes(n, width).len() == width,
        number_le(le_bytes(n, width)) == n,
    decreases width,
{
    if width > 0 {
        lemma_le_round_trip(n / 256, (width - 1) as nat);
        assert(le_bytes(n, width).drop_first() =~= le_bytes(n / 256, (width - 1) as nat));
    }
}

proof fn lemma_number_le_bound(bytes: Seq<u8>)
    ensures
        number_le(bytes) < le_limit(bytes.len()),
    decreases bytes.len(),
{
    if bytes.len() > 0 {
        lemma_number_le_bound(bytes.drop_first());
    }
}

proof fn lemma_le_limits()
    ensures
        le_limit(2) == 65536,
        le_limit(8) == 0x1_0000_0000_0000_0000,
        forall|width: nat| width < 8 ==> #[trigger] le_limit(width) <= 0x100_0000_0000_0000,
{
    assert(le_limit(1) == 256) by {
        reveal_with_fuel(le_limit, 2);
    }
    assert(le_limit(2) == 65536);
    assert(le_limit(3) == 0x100_0000);
    assert(le_limit(4) == 0x1_0000_0000);
    assert(le_limit(5) == 0x100_0000_0000);
    assert(le_limit(6) == 0x1_0000_0000_0000);
    assert(le_limit(7) == 0x100_0000_0000_0000);
    assert(le_limit(8) == 0x1_0000_0000_0000_0000);
    assert forall|width: nat| width < 8 implies #[trigger] le_limit(width)
        <= 0x100_0000_0000_0000 by {
        if width == 0 {
        } else if width == 1 {
        } else if width == 2 {
        } else if width == 3 {
        } else if width == 4 {
        } else if width == 5 {
        } else if width == 6 {
        } else {
            assert(width == 7);
        }
    }
}

fn append_le(out: &mut Vec<u8>, n: u64, width: usize)
    ensures
        final(out)@ == old(out)@ + le_bytes(n as nat, width as nat),
{
    let ghost start = out@;
    let mut rest: u64 = n;
    let mut left: usize = width;
    proof {
        assert(out@ + le_bytes(rest as nat, left as nat) == start + le_bytes(
            n as nat,
            width as nat,
        ));
    }
    while left > 0
        invariant
            out@ + le_bytes(rest as nat, left as nat) == start + le_bytes(n as nat, width as nat),
        decreases left,
    {
        let ghost before = out@;
        out.push((rest % 256) as u8);
        proof {
            assert(out@ + le_bytes((rest / 256) as nat, (left - 1) as nat) =~= before + le_bytes(
                rest as nat,
                left as nat,
            ));
        }
        rest = rest / 256;
        left = left - 1;
    }
    proof {
        assert(out@ + le_bytes(rest as nat, 0) =~= out@);
    }
}

fn number_in(bytes: &Vec<u8>, from: usize, to: usize) -> (n: u64)
    requires
        from <= to <= bytes@.len(),
        to - from <= 8,
    ensures
        n == number_le(bytes@.subrange(from as int, to as int)),
{
    let mut n: u64 = 0;
    let mut k: usize = to;
    while k > from
        invariant
            from <= k <= to <= bytes@.len(),
            to - from <= 8,
            n == number_le(bytes@.subrange(k as int, to as int)),
        decreases k,
    {
        proof {
            let rest = bytes@.subrange(k as int, to as int);
            lemma_number_le_bound(rest);
            lemma_le_limits();
            let more = bytes@.subrange(k - 1, to as int);
            assert(more.drop_first() =~= rest);
            assert(number_le(rest) < le_limit((to - k) as nat));
        }
        k = k - 1;
        n = bytes[k] as u64 + 256 * n;
    }
    n
}

/// What stands in front of an image.
pub open spec fn entry_header(name: Seq<char>, len: nat) -> Seq<u8> {
    le_bytes(text::utf8_len(name), 2) + le_bytes(len, 8) + vstd::utf8::encode_utf8(name)
}

/// What stands in front of an image, or that its name is too long.
pub fn write_entry_header(name: &str, len: u64) -> (header: Result<Vec<u8>, Error>)
    ensures
        match header {
            Ok(bytes) => text::utf8_len(name@) <= u16::MAX && bytes@ == entry_header(name@, len as nat),
            Err(error) => text::utf8_len(name@) > u16::MAX && error@ == error::refusal(
                name@ + " is too long to name in an artifact"@,
            ) + error::refusal("out of range integral type conversion attempted"@),
        },
{
    let size: usize = byte_len(name);
    if size > 65535 {
        let mut message: String = name.to_owned();
        message.append(" is too long to name in an artifact");
        return Err(refuse("out of range integral type conversion attempted").context(message));
    }
    let mut header: Vec<u8> = Vec::new();
    append_le(&mut header, size as u64, 2);
    append_le(&mut header, len, 8);
    append_bytes(&mut header, name.as_bytes());
    proof {
        assert(header@ =~= entry_header(name@, len as nat));
    }
    Ok(header)
}

/// What the start of a stream says of the next image.
#[verifier::ext_equal]
pub enum HeaderView {
    /// There is no next image.
    End,
    /// The stream ends too soon.
    Short,
    /// The name is no text.
    Unnamed(Seq<u8>),
    Entry { name: Seq<char>, len: nat },
}

/// How many bytes the header that starts a stream takes.
pub open spec fn header_size(stream: Seq<u8>) -> nat {
    10 + number_le(stream.take(2))
}

pub open spec fn header_in(stream: Seq<u8>) -> HeaderView {
    if stream.len() == 0 {
        HeaderView::End
    } else if stream.len() < 10 || stream.len() < header_size(stream) {
        HeaderView::Short
    } else {
        let name = stream.subrange(10, header_size(stream) as int);
        if vstd::utf8::valid_utf8(name) {
            HeaderView::Entry {
                name: vstd::utf8::decode_utf8(name),
                len: number_le(stream.subrange(2, 10)),
            }
        } else {
            HeaderView::Unnamed(name)
        }
    }
}

/// How many bytes of name follow the ten every header starts with.
pub fn name_length(head: &Vec<u8>) -> (n: usize)
    requires
        head@.len() >= 2,
    ensures
        n == number_le(head@.take(2)),
        n <= u16::MAX,
{
    proof {
        lemma_number_le_bound(head@.take(2));
        lemma_le_limits();
        assert(head@.subrange(0, 2) =~= head@.take(2));
    }
    number_in(head, 0, 2) as usize
}

/// The next image's name and length, or `None` at the end of the artifact.
/// `stream` is what could be read of the header, and `ended` what reading
/// further said where it is short.
pub fn read_entry_header(stream: &Vec<u8>, ended: &str) -> (header: Result<
    Option<(String, u64)>,
    Error,
>)
    ensures
        match header_in(stream@) {
            HeaderView::End => header == Ok::<Option<(String, u64)>, Error>(None),
            HeaderView::Short => header is Err && header->Err_0@ == error::refusal(
                "reading the artifact"@,
            ) + error::refusal(ended@),
            HeaderView::Unnamed(name) => header is Err && header->Err_0@ == error::refusal(
                "the artifact names a file in no known encoding"@,
            ) + error::refusal(unicode::utf8_complaint(name)),
            HeaderView::Entry { name, len } => match header {
                Ok(Some((text, bytes))) => text@ == name && bytes == len,
                _ => false,
            },
        },
{
    if stream.len() == 0 {
        return Ok(None);
    }
    if stream.len() < 10 {
        return Err(refuse(ended).context("reading the artifact".to_owned()));
    }
    let size: usize = name_length(stream);
    if stream.len() - 10 < size {
        return Err(refuse(ended).context("reading the artifact".to_owned()));
    }
    let len: u64 = number_in(stream, 2, 10);
    let end: usize = 10 + size;
    let mut name: Vec<u8> = Vec::new();
    let mut i: usize = 10;
    while i < end
        invariant
            10 <= i <= end <= stream@.len(),
            name@ == stream@.subrange(10, i as int),
        decreases end - i,
    {
        name.push(stream[i]);
        proof {
            assert(name@ =~= stream@.subrange(10, i + 1));
        }
        i = i + 1;
    }
    match decode_utf8(name) {
        Ok(text) => {
            proof {
                vstd::utf8::encode_utf8_decode_utf8(text@);
            }
            Ok(Some((text, len)))
        },
        Err(why) => Err(
            Error::new(why).context("the artifact names a file in no known encoding".to_owned()),
        ),
    }
}

/// Whether a stream starts as an artifact does, of the bytes that could be
/// read of its mark.
pub fn is_artifact(start: &Vec<u8>) -> (yes: bool)
    ensures
        yes == (start@ == vstd::utf8::encode_utf8(STORAGE_ARTIFACT_MAGIC@)),
{
    let magic = STORAGE_ARTIFACT_MAGIC.as_bytes();
    if start.len() != magic.len() {
        return false;
    }
    let mut i: usize = 0;
    while i < magic.len()
        invariant
            i <= magic@.len() == start@.len(),
            magic@ == vstd::utf8::encode_utf8(STORAGE_ARTIFACT_MAGIC@),
            start@.take(i as int) == magic@.take(i as int),
        decreases magic.len() - i,
    {
        if start[i] != magic[i] {
            proof {
                assert(start@[i as int] != magic@[i as int]);
            }
            return false;
        }
        proof {
            assert(start@.take(i + 1) =~= start@.take(i as int).push(start@[i as int]));
            assert(magic@.take(i + 1) =~= magic@.take(i as int).push(magic@[i as int]));
        }
        i = i + 1;
    }
    proof {
        assert(start@.take(i as int) =~= start@);
        assert(magic@.take(i as int) =~= magic@);
    }
    true
}

/// What follows the mark of an artifact of some images.
pub open spec fn packed(images: Seq<(Seq<char>, Seq<u8>)>) -> Seq<u8>
    decreases images.len(),
{
    if images.len() == 0 {
        Seq::empty()
    } else {
        entry_header(images[0].0, images[0].1.len()) + images[0].1 + packed(images.drop_first())
    }
}

/// The images a stream holds, `None` where it ends part-way or names one in no
/// known encoding.
pub open spec fn unpacked(stream: Seq<u8>) -> Option<Seq<(Seq<char>, Seq<u8>)>>
    decreases stream.len(),
{
    match header_in(stream) {
        HeaderView::End => Some(Seq::empty()),
        HeaderView::Entry { name, len } => {
            let at = header_size(stream);
            if stream.len() < at + len {
                None
            } else {
                match unpacked(stream.skip((at + len) as int)) {
                    Some(rest) => Some(
                        seq![(name, stream.subrange(at as int, (at + len) as int))] + rest,
                    ),
                    None => None,
                }
            }
        },
        _ => None,
    }
}

/// A header that was written is read back, whatever follows it.
pub proof fn headers_are_read_back(name: Seq<char>, len: u64, rest: Seq<u8>)
    requires
        text::utf8_len(name) <= u16::MAX,
    ensures
        header_in(entry_header(name, len as nat) + rest) == (HeaderView::Entry {
            name,
            len: len as nat,
        }),
        header_size(entry_header(name, len as nat) + rest) == entry_header(name, len as nat).len(),
{
    lemma_le_limits();
    lemma_le_round_trip(text::utf8_len(name), 2);
    lemma_le_round_trip(len as nat, 8);
    let header = entry_header(name, len as nat);
    let stream = header + rest;
    assert(stream.take(2) =~= le_bytes(text::utf8_len(name), 2));
    assert(stream.subrange(2, 10) =~= le_bytes(len as nat, 8));
    assert(stream.subrange(10, header.len() as int) =~= vstd::utf8::encode_utf8(name));
    vstd::utf8::encode_utf8_valid_utf8(name);
    vstd::utf8::encode_utf8_decode_utf8(name);
}

/// An artifact gives back the images it was made of: their names, their bytes
/// and their order.
pub proof fn artifacts_are_read_back(images: Seq<(Seq<char>, Seq<u8>)>)
    requires
        forall|i: int|
            0 <= i < images.len() ==> text::utf8_len((#[trigger] images[i]).0) <= u16::MAX
                && images[i].1.len() <= u64::MAX,
    ensures
        unpacked(packed(images)) == Some(images),
    decreases images.len(),
{
    if images.len() > 0 {
        let (name, content) = images[0];
        let rest = images.drop_first();
        assert forall|i: int| 0 <= i < rest.len() implies text::utf8_len((#[trigger] rest[i]).0)
            <= u16::MAX && rest[i].1.len() <= u64::MAX by {
            assert(rest[i] == images[i + 1]);
        }
        artifacts_are_read_back(rest);
        assert(text::utf8_len(images[0].0) <= u16::MAX);
        let header = entry_header(name, content.len());
        let stream = packed(images);
        headers_are_read_back(name, content.len() as u64, content + packed(rest));
        assert(stream =~= header + (content + packed(rest)));
        let at = header.len();
        assert(stream.skip((at + content.len()) as int) =~= packed(rest));
        assert(stream.subrange(at as int, (at + content.len()) as int) =~= content);
        assert(seq![(name, content)] + rest =~= images);
    } else {
        assert(images =~= Seq::empty());
    }
}

/// How many bytes a recipe allows an image, `None` for one it does not name.
pub open spec fn image_limit(cfg: ConfigView, name: Seq<char>) -> Option<nat> {
    if name == "rootfs.img"@ {
        Some((cfg.hw.rootfs_mib * BYTES_PER_MIB) as nat)
    } else if name.len() >= 8 && text::begins_with(name, "vol-"@) && text::finishes_with(name, ".img"@) {
        volume_limit(cfg.volumes, name.subrange(4, name.len() - 4))
    } else {
        None
    }
}

/// How many bytes the first volume of a name may take.
pub open spec fn volume_limit(volumes: Seq<VolumeView>, name: Seq<char>) -> Option<nat>
    decreases volumes.len(),
{
    if volumes.len() == 0 {
        None
    } else if volumes[0].name == name {
        Some((volumes[0].size_mib * BYTES_PER_MIB) as nat)
    } else {
        volume_limit(volumes.drop_first(), name)
    }
}

/// How many bytes volumes may take together.
pub open spec fn volumes_limit(volumes: Seq<VolumeView>) -> nat
    decreases volumes.len(),
{
    if volumes.len() == 0 {
        0
    } else {
        volumes_limit(volumes.drop_last()) + (volumes.last().size_mib * BYTES_PER_MIB) as nat
    }
}

/// How many bytes the images of a box may take together.
pub open spec fn total_limit(cfg: ConfigView) -> nat {
    (cfg.hw.rootfs_mib * BYTES_PER_MIB) as nat + volumes_limit(cfg.volumes)
}

fn limit_of(cfg: &Config, name: &str) -> (limit: Option<u64>)
    ensures
        match image_limit(cfg@, name@) {
            Some(bytes) => limit is Some && limit->0 == bytes,
            None => limit is None,
        },
{
    if same_text(name, crate::state::ROOTFS_FILE) {
        return Some(cfg.hw.rootfs_mib as u64 * BYTES_PER_MIB);
    }
    let n: usize = name.unicode_len();
    if n < 8 || !starts_with(name, "vol-") || !ends_with(name, ".img") {
        return None;
    }
    let volume = text_between(&chars_of(name), 4, n - 4);
    let mut i: usize = 0;
    proof {
        assert(cfg@.volumes.skip(0) =~= cfg@.volumes);
    }
    while i < cfg.volumes.len()
        invariant
            i <= cfg.volumes@.len(),
            image_limit(cfg@, name@) == volume_limit(cfg@.volumes, volume@),
            volume_limit(cfg@.volumes, volume@) == volume_limit(
                cfg@.volumes.skip(i as int),
                volume@,
            ),
        decreases cfg.volumes.len() - i,
    {
        proof {
            let rest = cfg@.volumes.skip(i as int);
            assert(rest[0] == cfg.volumes@[i as int]@);
            assert(rest.drop_first() =~= cfg@.volumes.skip(i + 1));
        }
        if same_text(cfg.volumes[i].name.as_str(), volume.as_str()) {
            return Some(cfg.volumes[i].size_mib as u64 * BYTES_PER_MIB);
        }
        i = i + 1;
    }
    None
}

proof fn lemma_volumes_limit_grows(volumes: Seq<VolumeView>, k: int)
    requires
        0 <= k <= volumes.len(),
    ensures
        volumes_limit(volumes.take(k)) <= volumes_limit(volumes),
    decreases volumes.len(),
{
    if k == volumes.len() {
        assert(volumes.take(k) =~= volumes);
    } else {
        lemma_volumes_limit_grows(volumes.drop_last(), k);
        assert(volumes.drop_last().take(k) =~= volumes.take(k));
    }
}

fn total_limit_of(cfg: &Config) -> (limit: u64)
    requires
        total_limit(cfg@) <= u64::MAX,
    ensures
        limit == total_limit(cfg@),
{
    let mut limit: u64 = cfg.hw.rootfs_mib as u64 * BYTES_PER_MIB;
    let ghost root = limit as nat;
    let mut i: usize = 0;
    proof {
        assert(cfg@.volumes.take(0) =~= Seq::empty());
    }
    while i < cfg.volumes.len()
        invariant
            i <= cfg.volumes@.len(),
            root == cfg.hw.rootfs_mib * BYTES_PER_MIB,
            limit == root + volumes_limit(cfg@.volumes.take(i as int)),
            total_limit(cfg@) <= u64::MAX,
        decreases cfg.volumes.len() - i,
    {
        proof {
            lemma_volumes_limit_grows(cfg@.volumes, i + 1);
            let more = cfg@.volumes.take(i + 1);
            assert(more.drop_last() =~= cfg@.volumes.take(i as int));
            assert(more.last() == cfg.volumes@[i as int]@);
        }
        limit = limit + cfg.volumes[i].size_mib as u64 * BYTES_PER_MIB;
        i = i + 1;
    }
    proof {
        assert(cfg@.volumes.take(i as int) =~= cfg@.volumes);
    }
    limit
}

/// Whether all a recipe allows its images can be counted.
pub fn limits_add_up(cfg: &Config) -> (yes: bool)
    ensures
        yes == (total_limit(cfg@) <= u64::MAX),
{
    let mut limit: u64 = cfg.hw.rootfs_mib as u64 * BYTES_PER_MIB;
    let ghost root = limit as nat;
    let mut i: usize = 0;
    proof {
        assert(cfg@.volumes.take(0) =~= Seq::empty());
    }
    while i < cfg.volumes.len()
        invariant
            i <= cfg.volumes@.len(),
            root == cfg.hw.rootfs_mib * BYTES_PER_MIB,
            limit == root + volumes_limit(cfg@.volumes.take(i as int)),
        decreases cfg.volumes.len() - i,
    {
        proof {
            lemma_volumes_limit_grows(cfg@.volumes, i + 1);
            let more = cfg@.volumes.take(i + 1);
            assert(more.drop_last() =~= cfg@.volumes.take(i as int));
            assert(more.last() == cfg.volumes@[i as int]@);
        }
        limit = match limit.checked_add(cfg.volumes[i].size_mib as u64 * BYTES_PER_MIB) {
            Some(more) => more,
            None => {
                return false;
            },
        };
        i = i + 1;
    }
    proof {
        assert(cfg@.volumes.take(i as int) =~= cfg@.volumes);
    }
    true
}

/// The images of an artifact so far, by name, and their bytes together.
#[derive(Debug)]
pub struct Admitted {
    names: Vec<String>,
    total: u64,
}

#[verifier::ext_equal]
pub struct AdmittedView {
    pub names: Seq<Seq<char>>,
    pub total: nat,
}

impl View for Admitted {
    type V = AdmittedView;

    closed spec fn view(&self) -> AdmittedView {
        AdmittedView { names: text::texts(self.names@), total: self.total as nat }
    }
}

/// What a box with a recipe makes of the next image an artifact announces: it
/// must be one a box holds, once, that the recipe names, and no larger than the
/// recipe allows it and all of them.
pub open spec fn admission(
    bx: BoxView,
    cfg: ConfigView,
    from: Seq<char>,
    so_far: AdmittedView,
    name: Seq<char>,
    len: u64,
) -> Result<AdmittedView, Refusal> {
    let file = render::printable(from);
    let shown = render::printable(name);
    let limit = image_limit(cfg, name);
    let total = so_far.total + len;
    if state::named_image(bx, name) is None {
        Err(error::refusal(file + " carries '"@ + shown + "', which is not an image a box holds"@))
    } else if so_far.names.contains(name) {
        Err(error::refusal(file + " carries '"@ + shown + "' twice"@))
    } else if limit is None {
        Err(error::refusal(name + " is not a configured image"@))
    } else if len > limit->0 {
        Err(
            error::refusal(
                file + " carries '"@ + shown + "' at "@ + text::decimal(len as nat)
                    + " bytes, past its configured "@ + text::decimal(limit->0) + "-byte limit"@,
            ),
        )
    } else if total > u64::MAX {
        Err(error::refusal("the artifact's image lengths overflow"@))
    } else if total > total_limit(cfg) {
        Err(
            error::refusal(
                file + " carries "@ + text::decimal(total as nat) + " bytes of images, past the "@
                    + text::decimal(total_limit(cfg)) + "-byte import limit"@,
            ),
        )
    } else {
        Ok(AdmittedView { names: so_far.names.push(name), total: total as nat })
    }
}

impl Admitted {
    pub fn new() -> (none: Admitted)
        ensures
            none@ == (AdmittedView { names: Seq::empty(), total: 0 }),
    {
        let none = Admitted { names: Vec::new(), total: 0 };
        proof {
            assert(none@.names =~= Seq::empty());
        }
        none
    }

    pub(crate) fn copy(&self) -> (same: Admitted)
        ensures
            same@ == self@,
    {
        let names = clone_texts(&self.names);
        Admitted { names, total: self.total }
    }

    /// Admits one image more, or says why it is not.
    pub fn accept(self, bx: &BoxRef, cfg: &Config, from: &str, name: &str, len: u64) -> (more: Result<
        Admitted,
        Error,
    >)
        requires
            total_limit(cfg@) <= u64::MAX,
        ensures
            match more {
                Ok(admitted) => admission(bx@, cfg@, from@, self@, name@, len) == Ok::<_, Refusal>(
                    admitted@,
                ),
                Err(error) => admission(bx@, cfg@, from@, self@, name@, len) == Err::<
                    AdmittedView,
                    _,
                >(error@),
            },
    {
        let mut message: String = escape_printable_path(from);
        if bx.image_named(name).is_none() {
            message.append(" carries '");
            message.append(escape_printable(name).as_str());
            message.append("', which is not an image a box holds");
            return Err(Error::new(message));
        }
        if contains_text(&self.names, name) {
            message.append(" carries '");
            message.append(escape_printable(name).as_str());
            message.append("' twice");
            return Err(Error::new(message));
        }
        let limit: u64 = match limit_of(cfg, name) {
            Some(limit) => limit,
            None => {
                let mut message: String = name.to_owned();
                message.append(" is not a configured image");
                return Err(Error::new(message));
            },
        };
        if len > limit {
            message.append(" carries '");
            message.append(escape_printable(name).as_str());
            message.append("' at ");
            message.append(spell(len).as_str());
            message.append(" bytes, past its configured ");
            message.append(spell(limit).as_str());
            message.append("-byte limit");
            return Err(Error::new(message));
        }
        let total: u64 = match self.total.checked_add(len) {
            Some(total) => total,
            None => {
                return Err(refuse("the artifact's image lengths overflow"));
            },
        };
        let most: u64 = total_limit_of(cfg);
        if total > most {
            message.append(" carries ");
            message.append(spell(total).as_str());
            message.append(" bytes of images, past the ");
            message.append(spell(most).as_str());
            message.append("-byte import limit");
            return Err(Error::new(message));
        }
        let mut names = self.names;
        let ghost before = names@;
        names.push(name.to_owned());
        proof {
            crate::text::lemma_texts_push(before, names@.last());
        }
        Ok(Admitted { names, total })
    }

    /// The names of the images an artifact held, or that it held none.
    pub fn finish(self, from: &str) -> (names: Result<Vec<String>, Error>)
        ensures
            match names {
                Ok(names) => self@.names.len() > 0 && text::texts(names@) == self@.names,
                Err(error) => self@.names.len() == 0 && error@ == error::refusal(
                    render::printable(from@) + " holds no images"@,
                ),
            },
    {
        if self.names.len() == 0 {
            let mut message: String = escape_printable_path(from);
            message.append(" holds no images");
            return Err(Error::new(message));
        }
        Ok(self.names)
    }
}

/// Whether images were admitted to a box by its recipe: each is one a box
/// holds, none comes twice, and together they stay within the limit.
pub open spec fn fit(bx: BoxView, cfg: ConfigView, admitted: AdmittedView) -> bool {
    &&& admitted.names.no_duplicates()
    &&& forall|i: int|
        0 <= i < admitted.names.len() ==> state::named_image(bx, #[trigger] admitted.names[i]) is Some
            && image_limit(cfg, admitted.names[i]) is Some
    &&& admitted.total <= total_limit(cfg)
}

/// Whatever an artifact announces, only images that fit are ever admitted, and
/// so they can be imported.
pub proof fn only_fitting_images_are_admitted(
    bx: BoxView,
    cfg: ConfigView,
    from: Seq<char>,
    so_far: AdmittedView,
    name: Seq<char>,
    len: u64,
)
    requires
        fit(bx, cfg, so_far),
        admission(bx, cfg, from, so_far, name, len) is Ok,
    ensures
        fit(bx, cfg, admission(bx, cfg, from, so_far, name, len)->Ok_0),
        fit(bx, cfg, AdmittedView { names: Seq::empty(), total: 0 }),
{
    let more = admission(bx, cfg, from, so_far, name, len)->Ok_0;
    assert forall|i: int, j: int|
        0 <= i < more.names.len() && 0 <= j < more.names.len() && i != j implies more.names[i]
        != more.names[j] by {
        if i == so_far.names.len() {
            assert(so_far.names.contains(so_far.names[j]));
        } else if j == so_far.names.len() {
            assert(so_far.names.contains(so_far.names[i]));
        }
    }
}

/// Whether something begins as an artifact does.
pub open spec fn artifact_verdict(start: Seq<u8>, from: Seq<char>) -> Result<(), Refusal> {
    if start == vstd::utf8::encode_utf8(STORAGE_ARTIFACT_MAGIC@) {
        Ok(())
    } else {
        Err(
            error::refusal(
                render::printable(from)
                    + " is not a terra storage artifact (`terra <box> storage export` writes one)"@,
            ),
        )
    }
}

/// Refuses a file that does not start as an artifact does.
pub fn check_artifact(start: &Vec<u8>, from: &str) -> (verdict: Result<(), Error>)
    ensures
        error::outcome(verdict) == artifact_verdict(start@, from@),
{
    if is_artifact(start) {
        return Ok(());
    }
    let mut message: String = escape_printable_path(from);
    message.append(" is not a terra storage artifact (`terra <box> storage export` writes one)");
    Err(Error::new(message))
}

/// What is said of an image of which fewer bytes came than were announced.
pub fn check_restored(path: &str, written: u64, len: u64) -> (checked: Result<(), Error>)
    ensures
        match checked {
            Ok(()) => written == len,
            Err(error) => written != len && error@ == error::refusal(
                "the artifact ends part-way through "@ + render::printable(path@),
            ),
        },
{
    if written == len {
        return Ok(());
    }
    let mut message: String = "the artifact ends part-way through ".to_owned();
    message.append(escape_printable_path(path).as_str());
    Err(Error::new(message))
}

/// What is said of an image that changed while it was read.
pub fn check_exported(path: &str, copied: u64, len: u64) -> (checked: Result<(), Error>)
    ensures
        match checked {
            Ok(()) => copied == len,
            Err(error) => copied != len && error@ == error::refusal(
                render::printable(path@) + " changed size while it was being exported"@,
            ),
        },
{
    if copied == len {
        return Ok(());
    }
    let mut message: String = escape_printable_path(path);
    message.append(" changed size while it was being exported");
    Err(Error::new(message))
}

} // verus!
