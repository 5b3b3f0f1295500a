//! Where the state of boxes is kept, and what it says of them.

use crate::error::{self, Error, Refusal};
use crate::host::{self, Home, HomeView, stands_alone};
use crate::ordered::{self, sort_texts};
use crate::path::{self, ComponentView, file_name_of, is_equivalent, join};
use crate::recipe::{self, expand_tilde};
use crate::render::{self, quote_shell_word};
use crate::text::{
    self, byte_len, chars_of, contains_char, contains_text, ends_with, parse_unsigned, same_text,
    spell, starts_with, text_between,
};
use crate::unicode::{self, split_words, trim};
use sha2::Digest;
use vstd::prelude::*;

pub mod settings;

verus! {

pub const ROOTFS_FILE: &'static str = "rootfs.img";

pub const PID_FILE: &'static str = "terra.pid";

/// The one file in a box's state that a user wrote.
pub const RECIPE_FILE: &'static str = "recipe.yaml";

/// The file that remembers which project a directory of boxes belongs to.
pub const ORIGIN_FILE: &'static str = ".path";

/// The settings of the machine.
pub const SETTINGS_FILE: &'static str = "config.yaml";

/// What SHA-256 makes of a list of bytes.
pub uninterp spec fn sha256(bytes: Seq<u8>) -> Seq<u8>;

/// `Sha256::digest` of the `sha2` crate: the SHA-256 digest of the bytes,
/// which has 32 of them. Nothing else is claimed but that it depends on the
/// bytes alone.
#[verifier::external_body]
pub(crate) fn sha256_digest(bytes: &[u8]) -> (digest: Vec<u8>)
    ensures
        digest@ == sha256(bytes@),
        digest@.len() == 32,
{
    sha2::Sha256::digest(bytes).to_vec()
}

/// The `k`-th group of five bits in a list of bytes, the first bit first; past
/// the end the bits are zero.
pub open spec fn five_bits(bytes: Seq<u8>, k: int) -> int {
    let at = 5 * k / 8;
    let next = if at + 1 < bytes.len() { bytes[at + 1] as int } else { 0 };
    ((bytes[at] as int * 256 + next) / divisor_for(5 * k % 8)) % 32
}

/// What leaves five bits of sixteen, once so many are passed over.
pub open spec fn divisor_for(offset: int) -> int {
    if offset == 0 {
        2048
    } else if offset == 1 {
        1024
    } else if offset == 2 {
        512
    } else if offset == 3 {
        256
    } else if offset == 4 {
        128
    } else if offset == 5 {
        64
    } else if offset == 6 {
        32
    } else {
        16
    }
}

/// The characters of a slug: one case, and none that looks like another.
pub open spec fn slug_alphabet() -> Seq<char> {
    "0123456789abcdefghjkmnpqrstvwxyz"@
}

/// The slug spelt by a digest: its first ten bytes, five bits at a time.
pub open spec fn slug_from(digest: Seq<u8>) -> Seq<char> {
    "t-"@ + Seq::new(16, |k: int| slug_alphabet()[five_bits(digest.take(10), k)])
}

/// The name a project's directory of boxes has: the slug of the digest of its
/// path. It is every box's address, so it never changes.
pub open spec fn slug_of(project_dir: Seq<char>) -> Seq<char> {
    slug_from(sha256(vstd::utf8::encode_utf8(project_dir)))
}

fn read_five_bits(bytes: &Vec<u8>, k: usize) -> (bits: usize)
    requires
        bytes@.len() == 10,
        k < 16,
    ensures
        bits == five_bits(bytes@, k as int),
        bits < 32,
{
    let at: usize = 5 * k / 8;
    let offset: usize = 5 * k % 8;
    let next: u32 = if at + 1 < 10 { bytes[at + 1] as u32 } else { 0 };
    let window: u32 = bytes[at] as u32 * 256 + next;
    let divisor: u32 = match offset {
        0 => 2048,
        1 => 1024,
        2 => 512,
        3 => 256,
        4 => 128,
        5 => 64,
        6 => 32,
        _ => 16,
    };
    ((window / divisor) % 32) as usize
}

/// Spells the slug of a digest; only its first ten bytes count.
pub fn spell_slug(digest: &Vec<u8>) -> (name: String)
    requires
        digest@.len() >= 10,
    ensures
        name@ == slug_from(digest@),
        name@.len() == 18,
{
    let mut bytes: Vec<u8> = digest.clone();
    bytes.truncate(10);
    proof {
        assert(bytes@ =~= digest@.take(10));
        reveal_strlit("0123456789abcdefghjkmnpqrstvwxyz");
        reveal_strlit("t-");
    }
    let ghost bits = Seq::new(16, |k: int| slug_alphabet()[five_bits(bytes@, k)]);
    let mut name: String = "t-".to_owned();
    let mut k: usize = 0;
    proof {
        assert(name@ =~= "t-"@ + bits.take(0));
    }
    while k < 16
        invariant
            k <= 16,
            bytes@.len() == 10,
            bits == Seq::new(16, |k: int| slug_alphabet()[five_bits(bytes@, k)]),
            slug_alphabet().len() == 32,
            name@ == "t-"@ + bits.take(k as int),
        decreases 16 - k,
    {
        let digit: usize = read_five_bits(&bytes, k);
        name.push("0123456789abcdefghjkmnpqrstvwxyz".get_char(digit));
        proof {
            assert(name@ =~= "t-"@ + bits.take(k + 1));
        }
        k = k + 1;
    }
    proof {
        assert(bits.take(16) =~= bits);
    }
    name
}

/// The slug of a project directory, links followed.
pub fn slug(project_dir: &str) -> (name: String)
    ensures
        name@ == slug_of(project_dir@),
        name@.len() == 18,
{
    let digest = sha256_digest(project_dir.as_bytes());
    spell_slug(&digest)
}

/// Every slug is the prefix and sixteen characters of the alphabet, so neither
/// the depth of a project nor the length of its name lengthens what hangs off
/// it.
pub proof fn slugs_have_one_length(project_dir: Seq<char>)
    requires
        sha256(vstd::utf8::encode_utf8(project_dir)).len() == 32,
    ensures
        slug_of(project_dir).len() == 18,
        text::utf8_len(slug_of(project_dir)) == 18,
        forall|i: int|
            2 <= i < 18 ==> slug_alphabet().contains(#[trigger] slug_of(project_dir)[i]),
{
    reveal_strlit("0123456789abcdefghjkmnpqrstvwxyz");
    reveal_strlit("t-");
    let digest = sha256(vstd::utf8::encode_utf8(project_dir)).take(10);
    let name = slug_of(project_dir);
    assert forall|i: int| 2 <= i < 18 implies slug_alphabet().contains(#[trigger] name[i]) by {
        assert(name[i] == slug_alphabet()[five_bits(digest, i - 2)]);
        assert(0 <= five_bits(digest, i - 2) < 32);
    }
    assert(vstd::utf8::is_ascii_chars(name)) by {
        assert forall|i: int| 0 <= i < name.len() implies 0 <= #[trigger] name[i] as nat <= 127 by {
            if i >= 2 {
                let j = choose|j: int| 0 <= j < 32 && slug_alphabet()[j] == name[i];
            }
        }
    }
    vstd::utf8::is_ascii_chars_encode_utf8(name);
}

/// What five bits of two bytes in a row are, by where they start.
proof fn lemma_window(b: u32, c: u32)
    by (bit_vector)
    requires
        b < 256,
        c < 256,
    ensures
        ((b * 256 + c) / 2048) % 32 == b / 8,
        ((b * 256 + c) / 1024) % 32 == (b / 4) % 32,
        ((b * 256 + c) / 512) % 32 == (b / 2) % 32,
        ((b * 256 + c) / 256) % 32 == b % 32,
        ((b * 256 + c) / 128) % 32 == (b % 16) * 2 + c / 128,
        ((b * 256 + c) / 64) % 32 == (b % 8) * 4 + c / 64,
        ((b * 256 + c) / 32) % 32 == (b % 4) * 8 + c / 32,
        ((b * 256 + c) / 16) % 32 == (b % 2) * 16 + c / 16,
{
}

/// A byte is read back from its upper part and its lower one, where the lower
/// one was put in front of something smaller.
proof fn lemma_rebuilt(byte: int, unit: int, place: int, rest: int)
    requires
        0 <= byte,
        0 < unit,
        0 < place,
        0 <= rest < place,
    ensures
        byte == (byte / unit) * unit + ((byte % unit) * place + rest) / place,
        ((byte % unit) * place + rest) % place == rest,
{
    vstd::arithmetic::div_mod::lemma_fundamental_div_mod(byte, unit);
    vstd::arithmetic::mul::lemma_mul_is_commutative(unit, byte / unit);
    vstd::arithmetic::div_mod::lemma_fundamental_div_mod_converse(
        (byte % unit) * place + rest,
        place,
        byte % unit,
        rest,
    );
}

/// The groups of five bits in five bytes from some place on.
spec fn groups(bytes: Seq<u8>, from: int) -> bool {
    let g = 8 * (from / 5);
    &&& five_bits(bytes, g) == bytes[from] / 8
    &&& five_bits(bytes, g + 1) == (bytes[from] % 8) * 4 + bytes[from + 1] / 64
    &&& five_bits(bytes, g + 2) == (bytes[from + 1] / 2) % 32
    &&& five_bits(bytes, g + 3) == (bytes[from + 1] % 2) * 16 + bytes[from + 2] / 16
    &&& five_bits(bytes, g + 4) == (bytes[from + 2] % 16) * 2 + bytes[from + 3] / 128
    &&& five_bits(bytes, g + 5) == (bytes[from + 3] / 4) % 32
    &&& five_bits(bytes, g + 6) == (bytes[from + 3] % 4) * 8 + bytes[from + 4] / 32
    &&& five_bits(bytes, g + 7) == bytes[from + 4] % 32
}

/// The groups whose bits begin in one byte.
#[verifier::spinoff_prover]
proof fn lemma_groups_of_byte(bytes: Seq<u8>, at: int)
    requires
        bytes.len() == 10,
        0 <= at < 10,
    ensures
        ({
            let b = bytes[at] as int;
            let c = if at < 9 {
                bytes[at + 1] as int
            } else {
                0
            };
            let g = 8 * (at / 5);
            &&& at % 5 == 0 ==> five_bits(bytes, g) == b / 8 && five_bits(bytes, g + 1) == (b % 8)
                * 4 + c / 64
            &&& at % 5 == 1 ==> five_bits(bytes, g + 2) == (b / 2) % 32 && five_bits(bytes, g + 3)
                == (b % 2) * 16 + c / 16
            &&& at % 5 == 2 ==> five_bits(bytes, g + 4) == (b % 16) * 2 + c / 128
            &&& at % 5 == 3 ==> five_bits(bytes, g + 5) == (b / 4) % 32 && five_bits(bytes, g + 6)
                == (b % 4) * 8 + c / 32
            &&& at % 5 == 4 ==> five_bits(bytes, g + 7) == b % 32
        }),
{
    lemma_window(
        bytes[at] as u32,
        if at < 9 {
            bytes[at + 1] as u32
        } else {
            0
        },
    );
}

#[verifier::spinoff_prover]
proof fn lemma_groups(bytes: Seq<u8>, from: int)
    requires
        bytes.len() == 10,
        from == 0 || from == 5,
    ensures
        groups(bytes, from),
{
    lemma_groups_of_byte(bytes, from);
    lemma_groups_of_byte(bytes, from + 1);
    lemma_groups_of_byte(bytes, from + 2);
    lemma_groups_of_byte(bytes, from + 3);
    lemma_groups_of_byte(bytes, from + 4);
}

/// Five bytes from the eight groups of five bits that they are cut into.
proof fn lemma_five_bytes(b0: int, b1: int, b2: int, b3: int, b4: int)
    requires
        0 <= b0 < 256,
        0 <= b1 < 256,
        0 <= b2 < 256,
        0 <= b3 < 256,
        0 <= b4 < 256,
    ensures
        b0 == (b0 / 8) * 8 + ((b0 % 8) * 4 + b1 / 64) / 4,
        b1 == (((b0 % 8) * 4 + b1 / 64) % 4) * 64 + ((b1 / 2) % 32) * 2 + ((b1 % 2) * 16 + b2 / 16)
            / 16,
        b2 == (((b1 % 2) * 16 + b2 / 16) % 16) * 16 + ((b2 % 16) * 2 + b3 / 128) / 2,
        b3 == (((b2 % 16) * 2 + b3 / 128) % 2) * 128 + ((b3 / 4) % 32) * 4 + ((b3 % 4) * 8 + b4 / 32)
            / 8,
        b4 == (((b3 % 4) * 8 + b4 / 32) % 8) * 32 + b4 % 32,
{
    lemma_rebuilt(b0, 8, 4, b1 / 64);
    lemma_rebuilt(b1, 2, 16, b2 / 16);
    lemma_rebuilt(b2, 16, 2, b3 / 128);
    lemma_rebuilt(b3, 4, 8, b4 / 32);
    assert(b1 / 2 == (b1 / 64) * 32 + (b1 / 2) % 32);
    assert(b3 / 4 == (b3 / 128) * 32 + (b3 / 4) % 32);
}

/// Five bytes by the eight groups of five bits they hold.
proof fn lemma_block_bytes(x: Seq<u8>, from: int)
    requires
        from == 0 || from == 5,
        x.len() == 10,
        groups(x, from),
    ensures
        ({
            let g = 8 * (from / 5);
            &&& x[from] == five_bits(x, g) * 8 + five_bits(x, g + 1) / 4
            &&& x[from + 1] == (five_bits(x, g + 1) % 4) * 64 + five_bits(x, g + 2) * 2 + five_bits(
                x,
                g + 3,
            ) / 16
            &&& x[from + 2] == (five_bits(x, g + 3) % 16) * 16 + five_bits(x, g + 4) / 2
            &&& x[from + 3] == (five_bits(x, g + 4) % 2) * 128 + five_bits(x, g + 5) * 4
                + five_bits(x, g + 6) / 8
            &&& x[from + 4] == (five_bits(x, g + 6) % 8) * 32 + five_bits(x, g + 7)
        }),
{
    lemma_five_bytes(
        x[from] as int,
        x[from + 1] as int,
        x[from + 2] as int,
        x[from + 3] as int,
        x[from + 4] as int,
    );
}

/// Bytes that hold the same groups of five bits are the same.
proof fn lemma_block(x: Seq<u8>, y: Seq<u8>, from: int)
    requires
        from == 0 || from == 5,
        x.len() == 10,
        y.len() == 10,
        groups(x, from),
        groups(y, from),
        forall|k: int| 0 <= k < 16 ==> #[trigger] five_bits(x, k) == five_bits(y, k),
    ensures
        forall|i: int| from <= i < from + 5 ==> x[i] == y[i],
{
    let g = 8 * (from / 5);
    assert(five_bits(x, g) == five_bits(y, g));
    assert(five_bits(x, g + 1) == five_bits(y, g + 1));
    assert(five_bits(x, g + 2) == five_bits(y, g + 2));
    assert(five_bits(x, g + 3) == five_bits(y, g + 3));
    assert(five_bits(x, g + 4) == five_bits(y, g + 4));
    assert(five_bits(x, g + 5) == five_bits(y, g + 5));
    assert(five_bits(x, g + 6) == five_bits(y, g + 6));
    assert(five_bits(x, g + 7) == five_bits(y, g + 7));
    lemma_block_bytes(x, from);
    lemma_block_bytes(y, from);
    assert forall|i: int| from <= i < from + 5 implies x[i] == y[i] by {
        assert(i == from || i == from + 1 || i == from + 2 || i == from + 3 || i == from + 4);
    }
}

/// Two projects share a directory of boxes only where their digests start
/// alike: every bit of the ten bytes is in the slug.
pub proof fn slugs_tell_projects_apart(a: Seq<char>, b: Seq<char>)
    requires
        sha256(vstd::utf8::encode_utf8(a)).len() == 32,
        sha256(vstd::utf8::encode_utf8(b)).len() == 32,
        slug_of(a) == slug_of(b),
    ensures
        sha256(vstd::utf8::encode_utf8(a)).take(10) == sha256(vstd::utf8::encode_utf8(b)).take(10),
{
    reveal_strlit("0123456789abcdefghjkmnpqrstvwxyz");
    reveal_strlit("t-");
    let x = sha256(vstd::utf8::encode_utf8(a)).take(10);
    let y = sha256(vstd::utf8::encode_utf8(b)).take(10);
    assert(forall|i: int, j: int|
        0 <= i < j < 32 ==> #[trigger] slug_alphabet()[i] != #[trigger] slug_alphabet()[j]);
    assert forall|k: int| 0 <= k < 16 implies #[trigger] five_bits(x, k) == five_bits(y, k) by {
        assert(slug_of(a)[k + 2] == slug_alphabet()[five_bits(x, k)]);
        assert(slug_of(b)[k + 2] == slug_alphabet()[five_bits(y, k)]);
        assert(0 <= five_bits(x, k) < 32 && 0 <= five_bits(y, k) < 32);
    }
    lemma_groups(x, 0);
    lemma_groups(x, 5);
    lemma_groups(y, 0);
    lemma_groups(y, 5);
    lemma_block(x, y, 0);
    lemma_block(x, y, 5);
    assert(x =~= y);
}

/// The place of a character among the thirty-two that a slug is spelled with:
/// the digits, and the letters without those that look like others.
pub open spec fn slug_digit(c: char) -> int {
    "0123456789abcdefghjkmnpqrstvwxyz"@.index_of(c)
}

/// Eight digits of a slug, read as one number.
pub open spec fn slug_number(slug: Seq<char>, from: int) -> int {
    slug_digit(slug[from]) * 0x8_0000_0000 + slug_digit(slug[from + 1]) * 0x4000_0000 + slug_digit(
        slug[from + 2],
    ) * 0x200_0000 + slug_digit(slug[from + 3]) * 0x10_0000 + slug_digit(slug[from + 4]) * 0x8000
        + slug_digit(slug[from + 5]) * 0x400 + slug_digit(slug[from + 6]) * 0x20 + slug_digit(
        slug[from + 7],
    )
}

/// Five bytes of a digest, read as one number.
pub open spec fn digest_number(digest: Seq<u8>, from: int) -> int {
    digest[from] * 0x1_0000_0000 + digest[from + 1] * 0x100_0000 + digest[from + 2] * 0x1_0000
        + digest[from + 3] * 0x100 + digest[from + 4]
}

proof fn lemma_slug_digit(digest: Seq<u8>, k: int)
    requires
        digest.len() == 32,
        0 <= k < 16,
    ensures
        slug_digit(slug_from(digest)[k + 2]) == five_bits(digest.take(10), k),
{
    reveal_strlit("0123456789abcdefghjkmnpqrstvwxyz");
    reveal_strlit("t-");
    let all = "0123456789abcdefghjkmnpqrstvwxyz"@;
    let at = five_bits(digest.take(10), k);
    assert(forall|i: int, j: int| 0 <= i < j < 32 ==> #[trigger] all[i] != #[trigger] all[j]);
    assert(0 <= at < 32);
    assert(slug_from(digest)[k + 2] == all[at]);
    assert(all.contains(all[at]));
    assert(all[all.index_of(all[at])] == all[at]);
}

#[verifier::spinoff_prover]
proof fn lemma_number_of_groups(b0: int, b1: int, b2: int, b3: int, b4: int)
    requires
        0 <= b0 < 256,
        0 <= b1 < 256,
        0 <= b2 < 256,
        0 <= b3 < 256,
        0 <= b4 < 256,
    ensures
        (b0 / 8) * 0x8_0000_0000 + ((b0 % 8) * 4 + b1 / 64) * 0x4000_0000 + ((b1 / 2) % 32)
            * 0x200_0000 + ((b1 % 2) * 16 + b2 / 16) * 0x10_0000 + ((b2 % 16) * 2 + b3 / 128)
            * 0x8000 + ((b3 / 4) % 32) * 0x400 + ((b3 % 4) * 8 + b4 / 32) * 0x20 + b4 % 32 == b0
            * 0x1_0000_0000 + b1 * 0x100_0000 + b2 * 0x1_0000 + b3 * 0x100 + b4,
{
    assert(b1 / 2 == (b1 / 64) * 32 + (b1 / 2) % 32);
    assert(b3 / 4 == (b3 / 128) * 32 + (b3 / 4) % 32);
}

/// A slug spells the first ten bytes of the digest of its project, as two
/// numbers of eight digits each, the largest digit first.
pub proof fn slugs_spell_the_start_of_the_digest(project_dir: Seq<char>)
    requires
        sha256(vstd::utf8::encode_utf8(project_dir)).len() == 32,
    ensures
        slug_of(project_dir).take(2) == "t-"@,
        slug_number(slug_of(project_dir), 2) == digest_number(
            sha256(vstd::utf8::encode_utf8(project_dir)),
            0,
        ),
        slug_number(slug_of(project_dir), 10) == digest_number(
            sha256(vstd::utf8::encode_utf8(project_dir)),
            5,
        ),
{
    reveal_strlit("t-");
    let digest = sha256(vstd::utf8::encode_utf8(project_dir));
    let x = digest.take(10);
    assert(slug_of(project_dir).take(2) =~= "t-"@);
    lemma_groups(x, 0);
    lemma_groups(x, 5);
    lemma_number_of_groups(x[0] as int, x[1] as int, x[2] as int, x[3] as int, x[4] as int);
    lemma_number_of_groups(x[5] as int, x[6] as int, x[7] as int, x[8] as int, x[9] as int);
    lemma_slug_digit(digest, 0);
    lemma_slug_digit(digest, 1);
    lemma_slug_digit(digest, 2);
    lemma_slug_digit(digest, 3);
    lemma_slug_digit(digest, 4);
    lemma_slug_digit(digest, 5);
    lemma_slug_digit(digest, 6);
    lemma_slug_digit(digest, 7);
    lemma_slug_digit(digest, 8);
    lemma_slug_digit(digest, 9);
    lemma_slug_digit(digest, 10);
    lemma_slug_digit(digest, 11);
    lemma_slug_digit(digest, 12);
    lemma_slug_digit(digest, 13);
    lemma_slug_digit(digest, 14);
    lemma_slug_digit(digest, 15);
}

/// One box: the project it belongs to, its name, and where its state is kept.
#[derive(Debug)]
pub struct BoxRef {
    project_dir: String,
    name: String,
    dir: String,
}

#[verifier::ext_equal]
pub struct BoxView {
    pub project_dir: Seq<char>,
    pub name: Seq<char>,
    pub dir: Seq<char>,
}

impl View for BoxRef {
    type V = BoxView;

    closed spec fn view(&self) -> BoxView {
        BoxView { project_dir: self.project_dir@, name: self.name@, dir: self.dir@ }
    }
}

/// The VM process a box's pid file names.
#[derive(Debug, Clone, Copy, PartialEq, Eq, Structural)]
pub struct VmProcess {
    pub pid: u32,
    /// When the process started, by which it is told from one that was given
    /// its number later.
    pub started_at: Option<u64>,
}

/// Who holds the lock of a box.
#[derive(Debug, Clone, Copy, PartialEq, Eq, Structural)]
pub enum Holder {
    Free,
    SettingUp,
    Running,
}

impl Holder {
    pub fn holds(self) -> (yes: bool)
        ensures
            yes == (self != Holder::Free),
    {
        self != Holder::Free
    }
}

/// Whether a box has a filesystem, and whether something holds it.
#[derive(Debug, Clone, Copy, PartialEq, Eq, Structural)]
pub enum BoxState {
    Running,
    SettingUp,
    Stopped,
    NotCreated,
    /// State remains, but the project directory is gone.
    Gone,
}

/// A state as one word.
pub open spec fn state_word(state: BoxState) -> Seq<char> {
    match state {
        BoxState::Running => "running"@,
        BoxState::SettingUp => "setting-up"@,
        BoxState::Stopped => "stopped"@,
        BoxState::NotCreated => "not-created"@,
        BoxState::Gone => "gone"@,
    }
}

impl BoxState {
    pub fn word(self) -> (word: &'static str)
        ensures
            word@ == state_word(self),
    {
        match self {
            BoxState::Running => "running",
            BoxState::SettingUp => "setting-up",
            BoxState::Stopped => "stopped",
            BoxState::NotCreated => "not-created",
            BoxState::Gone => "gone",
        }
    }
}

/// Every state is a single word.
pub proof fn states_are_single_words(state: BoxState)
    ensures
        unicode::one_word(state_word(state)),
{
    reveal_strlit("running");
    reveal_strlit("setting-up");
    reveal_strlit("stopped");
    reveal_strlit("not-created");
    reveal_strlit("gone");
}

/// The process the line of a pid file names: a number above zero, and when it
/// started, if that is a number too.
pub open spec fn process_in(line: Seq<char>) -> Option<VmProcess> {
    let list = unicode::words(line);
    if list.len() == 0 {
        None
    } else {
        match text::unsigned(list[0], u32::MAX as nat) {
            None => None,
            Some(pid) => if pid == 0 {
                None
            } else {
                Some(
                    VmProcess {
                        pid: pid as u32,
                        started_at: if list.len() < 2 {
                            None
                        } else {
                            match text::unsigned(list[1], u64::MAX as nat) {
                                Some(at) => Some(at as u64),
                                None => None,
                            }
                        },
                    },
                )
            },
        }
    }
}

/// Whether the line of a pid file is marked by a box being set up.
pub open spec fn marked_baking(line: Seq<char>) -> bool {
    unicode::words(line).contains("bake"@)
}

/// The line of a pid file.
pub open spec fn pid_line(pid: u32, started_at: Option<u64>, baking: bool) -> Seq<char> {
    let line = match started_at {
        Some(at) => text::decimal(pid as nat).push(' ') + text::decimal(at as nat),
        None => text::decimal(pid as nat),
    };
    if baking {
        line.push(' ') + "bake"@
    } else {
        line
    }
}

pub fn format_pid_line(pid: u32, started_at: Option<u64>, baking: bool) -> (line: String)
    ensures
        line@ == pid_line(pid, started_at, baking),
{
    let mut line: String = spell(pid as u64);
    if let Some(at) = started_at {
        line.push(' ');
        line.append(spell(at).as_str());
    }
    if baking {
        line.push(' ');
        line.append("bake");
    }
    line
}

/// What is published is what is read: the line of a pid file gives back the
/// process and the mark it was written with. A line without a start and with
/// the mark is read as one without a start.
pub proof fn pid_lines_are_read_back(pid: u32, started_at: Option<u64>, baking: bool)
    requires
        pid > 0,
    ensures
        process_in(pid_line(pid, started_at, baking)) == Some(VmProcess { pid, started_at }),
        marked_baking(pid_line(pid, started_at, baking)) == baking,
{
    reveal_strlit("bake");
    let first = text::decimal(pid as nat);
    let mark = "bake"@;
    crate::text::lemma_decimal_round_trip(pid as nat);
    text::lemma_unsigned_round_trip(pid as nat, u32::MAX as nat);
    assert(unicode::one_word(first));
    unicode::lemma_words_one(first);
    assert(unicode::one_word(mark));
    let line = match started_at {
        Some(at) => first.push(' ') + text::decimal(at as nat),
        None => first,
    };
    if let Some(at) = started_at {
        let second = text::decimal(at as nat);
        crate::text::lemma_decimal_round_trip(at as nat);
        text::lemma_unsigned_round_trip(at as nat, u64::MAX as nat);
        assert(unicode::one_word(second));
        unicode::lemma_words_append(first, ' ', second);
        assert(unicode::words(line) =~= seq![first, second]);
        assert(second != mark) by {
            if second == mark {
                assert('0' <= second[0] <= '9');
            }
        }
    } else {
        assert(unicode::words(line) =~= seq![first]);
    }
    assert(first != mark) by {
        if first == mark {
            assert('0' <= first[0] <= '9');
        }
    }
    if baking {
        unicode::lemma_words_append(line, ' ', mark);
        let list = unicode::words(pid_line(pid, started_at, baking));
        assert(list[list.len() - 1] == mark);
        assert(list[0] == first);
        if started_at is None {
            assert(list[1] == mark);
            assert(!('0' <= mark[0] <= '9'));
            assert(text::unsigned(mark, u64::MAX as nat) is None) by {
                crate::text::lemma_no_number(mark, 0);
            }
        }
    } else {
        assert(!unicode::words(line).contains(mark));
    }
}

/// Who holds a box, by whether it is locked and what its pid file says.
pub open spec fn holder_of(is_locked: bool, line: Seq<char>) -> Holder {
    if !is_locked {
        Holder::Free
    } else if marked_baking(line) {
        Holder::SettingUp
    } else {
        Holder::Running
    }
}

/// What a box is doing.
pub open spec fn state_of(holder: Holder, has_project_dir: bool, has_rootfs: bool) -> BoxState {
    match holder {
        Holder::Running => BoxState::Running,
        Holder::SettingUp => BoxState::SettingUp,
        Holder::Free => if !has_project_dir {
            BoxState::Gone
        } else if has_rootfs {
            BoxState::Stopped
        } else {
            BoxState::NotCreated
        },
    }
}

/// The image a volume is kept in.
pub open spec fn volume_file(name: Seq<char>) -> Seq<char> {
    "vol-"@ + name + ".img"@
}

/// Whether a file name is that of a volume image.
pub open spec fn is_volume_file(name: Seq<char>) -> bool {
    text::begins_with(name, "vol-"@) && text::finishes_with(name, ".img"@)
}

/// The image a name addresses, `None` for one no box gives an image.
pub open spec fn named_image(bx: BoxView, name: Seq<char>) -> Option<Seq<char>> {
    if name == "rootfs.img"@ {
        Some(path::placed(bx.dir, "rootfs.img"@))
    } else if is_volume_file(name) && name.len() >= 8 {
        let volume = name.subrange(4, name.len() - 4);
        if volume.len() == 0 || volume == "."@ || volume == ".."@ || volume.contains('/')
            || volume.contains('\\') {
            None
        } else {
            Some(path::placed(bx.dir, volume_file(volume)))
        }
    } else {
        None
    }
}

/// The images of volumes among the files of a state directory.
pub open spec fn images_among(bx: BoxView, files: Seq<Seq<char>>) -> Seq<Seq<char>>
    decreases files.len(),
{
    if files.len() == 0 {
        Seq::empty()
    } else {
        let before = images_among(bx, files.drop_last());
        if is_volume_file(files.last()) {
            before.push(path::placed(bx.dir, files.last()))
        } else {
            before
        }
    }
}

/// Whether a path is that of a volume a recipe names.
pub open spec fn configured_image(bx: BoxView, path: Seq<char>, configured: Seq<Seq<char>>) -> bool {
    exists|i: int|
        0 <= i < configured.len() && path::equivalent(
            path::placed(bx.dir, volume_file(#[trigger] configured[i])),
            path,
        )
}

/// The images among some that no volume of a recipe uses.
pub open spec fn unused_among(bx: BoxView, images: Seq<Seq<char>>, configured: Seq<Seq<char>>) -> Seq<
    Seq<char>,
>
    decreases images.len(),
{
    if images.len() == 0 {
        Seq::empty()
    } else {
        let before = unused_among(bx, images.drop_last(), configured);
        if configured_image(bx, images.last(), configured) {
            before
        } else {
            before.push(images.last())
        }
    }
}

/// A box as it is named to a person.
pub open spec fn shown(bx: BoxView) -> Seq<char> {
    bx.name + " ("@ + bx.project_dir + ")"@
}

/// The command that follows a box's log.
pub open spec fn logs_command_of(bx: BoxView) -> Seq<char> {
    "terra "@ + bx.name + " logs --project "@ + render::shell_word(bx.project_dir)
}

/// What is said of a box that is being set up.
pub open spec fn being_set_up(bx: BoxView) -> Refusal {
    error::refusal(
        shown(bx)
            + " is being set up - its `on_create` bake holds the box and serves no agent port (`"@
            + logs_command_of(bx) + "` follows the bake; run this again once it is done)"@,
    )
}

/// What is said of a box whose lock another command holds, by the line of its
/// pid file.
pub open spec fn contention(bx: BoxView, line: Seq<char>) -> Refusal {
    if marked_baking(line) {
        being_set_up(bx)
    } else {
        error::refusal(
            bx.dir + " is locked by another terra command"@ + (match process_in(line) {
                Some(vm) => " (pid "@ + text::decimal(vm.pid as nat) + ")"@,
                None => Seq::empty(),
            }) + " - a bake, export or import holds the box for minutes"@,
        )
    }
}

/// Whether the sockets of a box have paths no longer than a socket can have.
pub open spec fn sockets_verdict(bx: BoxView, max: nat) -> Result<(), Refusal> {
    let sock = path::placed(bx.dir, "c"@);
    if text::utf8_len(sock) > max {
        Err(
            error::refusal(
                "this box's path is too long: its control socket would be "@ + text::decimal(
                    text::utf8_len(sock),
                ) + " bytes and a unix socket path cannot exceed "@ + text::decimal(max) + " ("@
                    + sock
                    + ")\n(a shorter box name helps, `--project` moves the box, or move the project)"@,
            ),
        )
    } else {
        Ok(())
    }
}

/// The box of a name in a project.
pub open spec fn box_of(
    project_dir: Seq<char>,
    real_dir: Seq<char>,
    box_home: Seq<char>,
    name: Seq<char>,
) -> BoxView {
    BoxView {
        project_dir,
        name,
        dir: path::placed(path::placed(box_home, slug_of(real_dir)), name),
    }
}

impl BoxRef {
    /// The box of a name in a project: its state lies under the project's slug
    /// in the home of all boxes. `real_dir` is the project directory with
    /// links followed.
    pub fn resolve(project_dir: &str, real_dir: &str, box_home: &str, name: &str) -> (bx: BoxRef)
        ensures
            bx@ == box_of(project_dir@, real_dir@, box_home@, name@),
    {
        let dir = join(project_state_dir(box_home, real_dir).as_str(), name);
        BoxRef { project_dir: project_dir.to_owned(), name: name.to_owned(), dir }
    }

    /// The box a state directory is of.
    pub fn from_state_dir(dir: String, project_dir: &str) -> (bx: BoxRef)
        ensures
            bx@ == (BoxView {
                project_dir: project_dir@,
                name: match path::file_name(dir@) {
                    Some(name) => name,
                    None => Seq::empty(),
                },
                dir: dir@,
            }),
    {
        let name = match file_name_of(dir.as_str()) {
            Some(name) => name,
            None => String::new(),
        };
        BoxRef { project_dir: project_dir.to_owned(), name, dir }
    }

    pub fn copy(&self) -> (bx: BoxRef)
        ensures
            bx@ == self@,
    {
        BoxRef {
            project_dir: self.project_dir.as_str().to_owned(),
            name: self.name.as_str().to_owned(),
            dir: self.dir.as_str().to_owned(),
        }
    }

    pub fn project_dir(&self) -> (dir: &str)
        ensures
            dir@ == self@.project_dir,
    {
        self.project_dir.as_str()
    }

    pub fn name(&self) -> (name: &str)
        ensures
            name@ == self@.name,
    {
        self.name.as_str()
    }

    pub fn dir(&self) -> (dir: &str)
        ensures
            dir@ == self@.dir,
    {
        self.dir.as_str()
    }

    #[must_use]
    pub fn control_sock(&self) -> (path: String)
        ensures
            path@ == path::placed(self@.dir, "c"@),
    {
        join(self.dir.as_str(), "c")
    }

    #[must_use]
    pub fn agent_sock(&self) -> (path: String)
        ensures
            path@ == path::placed(self@.dir, "a"@),
    {
        join(self.dir.as_str(), "a")
    }

    /// Refuses a box whose sockets could not be bound, before anything is
    /// built for it.
    pub fn ensure_sockets_fit(&self, max: usize) -> (verdict: Result<(), Error>)
        ensures
            error::outcome(verdict) == sockets_verdict(self@, max as nat),
    {
        let sock = self.control_sock();
        let len: usize = byte_len(sock.as_str());
        if len > max {
            let mut message: String = "this box's path is too long: its control socket would be ".to_owned();
            message.append(spell(len as u64).as_str());
            message.append(" bytes and a unix socket path cannot exceed ");
            message.append(spell(max as u64).as_str());
            message.append(" (");
            message.append(sock.as_str());
            message.append(
                ")\n(a shorter box name helps, `--project` moves the box, or move the project)",
            );
            return Err(Error::new(message));
        }
        Ok(())
    }

    #[must_use]
    pub fn rootfs_img(&self) -> (path: String)
        ensures
            path@ == path::placed(self@.dir, "rootfs.img"@),
    {
        join(self.dir.as_str(), "rootfs.img")
    }

    #[must_use]
    pub fn volume_img(&self, name: &str) -> (path: String)
        ensures
            path@ == path::placed(self@.dir, volume_file(name@)),
    {
        let mut file: String = "vol-".to_owned();
        file.append(name);
        file.append(".img");
        join(self.dir.as_str(), file.as_str())
    }

    /// Every volume image the box has, whatever its recipe names; `files` are
    /// the names in its state directory.
    #[must_use]
    pub fn volume_images(&self, files: &Vec<String>) -> (images: Vec<String>)
        ensures
            text::texts(images@) == images_among(self@, text::texts(files@)),
    {
        let ghost all = text::texts(files@);
        let mut images: Vec<String> = Vec::new();
        let mut i: usize = 0;
        proof {
            assert(text::texts(images@) =~= Seq::empty());
            assert(all.take(0) =~= Seq::empty());
        }
        while i < files.len()
            invariant
                i <= files@.len(),
                all == text::texts(files@),
                text::texts(images@) == images_among(self@, all.take(i as int)),
            decreases files.len() - i,
        {
            let ghost before = images@;
            proof {
                assert(all.take(i + 1).drop_last() =~= all.take(i as int));
                assert(all.take(i + 1).last() == files@[i as int]@);
            }
            let name = files[i].as_str();
            if starts_with(name, "vol-") && ends_with(name, ".img") {
                images.push(join(self.dir.as_str(), name));
                proof {
                    crate::text::lemma_texts_push(before, images@.last());
                }
            }
            i = i + 1;
        }
        proof {
            assert(all.take(i as int) =~= all);
        }
        images
    }

    fn is_configured(&self, path: &str, configured: &Vec<String>) -> (yes: bool)
        ensures
            yes == configured_image(self@, path@, text::texts(configured@)),
    {
        let ghost all = text::texts(configured@);
        let mut i: usize = 0;
        while i < configured.len()
            invariant
                i <= configured@.len(),
                all == text::texts(configured@),
                forall|j: int|
                    0 <= j < i ==> !path::equivalent(
                        path::placed(self@.dir, volume_file(#[trigger] all[j])),
                        path@,
                    ),
            decreases configured.len() - i,
        {
            let image = self.volume_img(configured[i].as_str());
            proof {
                assert(all[i as int] == configured@[i as int]@);
            }
            if is_equivalent(image.as_str(), path) {
                return true;
            }
            i = i + 1;
        }
        false
    }

    /// The volume images the recipe no longer names.
    #[must_use]
    pub fn unused_volume_images(&self, files: &Vec<String>, configured: &Vec<String>) -> (images: Vec<
        String,
    >)
        ensures
            text::texts(images@) == unused_among(
                self@,
                images_among(self@, text::texts(files@)),
                text::texts(configured@),
            ),
    {
        let found = self.volume_images(files);
        let ghost all = text::texts(found@);
        let mut images: Vec<String> = Vec::new();
        let mut i: usize = 0;
        proof {
            assert(text::texts(images@) =~= Seq::empty());
            assert(all.take(0) =~= Seq::empty());
        }
        while i < found.len()
            invariant
                i <= found@.len(),
                all == text::texts(found@),
                text::texts(images@) == unused_among(self@, all.take(i as int), text::texts(configured@)),
            decreases found.len() - i,
        {
            let ghost before = images@;
            proof {
                assert(all.take(i + 1).drop_last() =~= all.take(i as int));
                assert(all.take(i + 1).last() == found@[i as int]@);
            }
            if !self.is_configured(found[i].as_str(), configured) {
                images.push(found[i].as_str().to_owned());
                proof {
                    crate::text::lemma_texts_push(before, images@.last());
                }
            }
            i = i + 1;
        }
        proof {
            assert(all.take(i as int) =~= all);
        }
        images
    }

    /// The image `name` addresses in this box, or `None` for a name that is
    /// not one a box gives an image.
    pub fn image_named(&self, name: &str) -> (path: Option<String>)
        ensures
            text::text_of(path) == named_image(self@, name@),
    {
        if same_text(name, "rootfs.img") {
            return Some(self.rootfs_img());
        }
        let chars = chars_of(name);
        let n: usize = chars.len();
        if !(starts_with(name, "vol-") && ends_with(name, ".img") && n >= 8) {
            return None;
        }
        let volume = text_between(&chars, 4, n - 4);
        let word = volume.as_str();
        if word.unicode_len() == 0 || same_text(word, ".") || same_text(word, "..") || contains_char(
            word,
            '/',
        ) || contains_char(word, '\\') {
            return None;
        }
        Some(self.volume_img(word))
    }

    pub fn recipe(&self) -> (path: String)
        ensures
            path@ == path::placed(self@.dir, "recipe.yaml"@),
    {
        join(self.dir.as_str(), "recipe.yaml")
    }

    pub fn pid_file(&self) -> (path: String)
        ensures
            path@ == path::placed(self@.dir, "terra.pid"@),
    {
        join(self.dir.as_str(), "terra.pid")
    }

    pub fn log(&self) -> (path: String)
        ensures
            path@ == path::placed(self@.dir, "terra.log"@),
    {
        join(self.dir.as_str(), "terra.log")
    }

    pub fn diagnostics_log(&self) -> (path: String)
        ensures
            path@ == path::placed(self@.dir, "diagnostics.log"@),
    {
        join(self.dir.as_str(), "diagnostics.log")
    }

    /// The box as it is named to a person: either half alone is ambiguous.
    pub fn describe(&self) -> (text: String)
        ensures
            text@ == shown(self@),
    {
        let mut text: String = self.name.as_str().to_owned();
        text.append(" (");
        text.append(self.project_dir.as_str());
        text.append(")");
        text
    }

    pub fn logs_command(&self) -> (command: String)
        ensures
            command@ == logs_command_of(self@),
    {
        let mut command: String = "terra ".to_owned();
        command.append(self.name.as_str());
        command.append(" logs --project ");
        command.append(quote_shell_word(self.project_dir.as_str()).as_str());
        command
    }

    /// The process the line of the box's pid file names.
    pub fn vm_process(&self, line: &str) -> (vm: Option<VmProcess>)
        ensures
            vm == process_in(line@),
    {
        read_process(line)
    }

    /// Who holds the box, by whether its lock is held and by the line of its
    /// pid file.
    pub fn holder(&self, is_locked: bool, line: &str) -> (holder: Holder)
        ensures
            holder == holder_of(is_locked, line@),
    {
        if !is_locked {
            return Holder::Free;
        }
        if is_marked_baking(line) {
            return Holder::SettingUp;
        }
        Holder::Running
    }

    pub fn setup_holds_it(&self) -> (error: Error)
        ensures
            error@ == being_set_up(self@),
    {
        let mut message = self.describe();
        message.append(
            " is being set up - its `on_create` bake holds the box and serves no agent port (`",
        );
        message.append(self.logs_command().as_str());
        message.append("` follows the bake; run this again once it is done)");
        Error::new(message)
    }

    /// What is said where the lock is held by another command.
    pub fn contended(&self, line: &str) -> (error: Error)
        ensures
            error@ == contention(self@, line@),
    {
        if is_marked_baking(line) {
            return self.setup_holds_it();
        }
        let mut message: String = self.dir.as_str().to_owned();
        message.append(" is locked by another terra command");
        let mut who: String = String::new();
        if let Some(vm) = read_process(line) {
            who = " (pid ".to_owned();
            who.append(spell(vm.pid as u64).as_str());
            who.append(")");
        }
        message.append(who.as_str());
        message.append(" - a bake, export or import holds the box for minutes");
        Error::new(message)
    }

    /// What state the box is in. A box nobody holds is gone where its project
    /// directory is, whatever else is left of it.
    pub fn state(&self, holder: Holder, has_project_dir: bool, has_rootfs: bool) -> (state: BoxState)
        ensures
            state == state_of(holder, has_project_dir, has_rootfs),
    {
        match holder {
            Holder::Running => BoxState::Running,
            Holder::SettingUp => BoxState::SettingUp,
            Holder::Free => if !has_project_dir {
                BoxState::Gone
            } else if has_rootfs {
                BoxState::Stopped
            } else {
                BoxState::NotCreated
            },
        }
    }
}

fn read_process(line: &str) -> (vm: Option<VmProcess>)
    ensures
        vm == process_in(line@),
{
    let list = split_words(line);
    proof {
        assert(text::texts(list@).len() == list@.len());
        if list@.len() > 0 {
            assert(text::texts(list@)[0] == list@[0]@);
        }
        if list@.len() > 1 {
            assert(text::texts(list@)[1] == list@[1]@);
        }
    }
    if list.len() == 0 {
        return None;
    }
    match parse_unsigned(list[0].as_str(), u32::MAX as u64) {
        None => None,
        Some(pid) => {
            if pid == 0 {
                return None;
            }
            let started_at = if list.len() < 2 {
                None
            } else {
                parse_unsigned(list[1].as_str(), u64::MAX)
            };
            Some(VmProcess { pid: pid as u32, started_at })
        },
    }
}

fn is_marked_baking(line: &str) -> (yes: bool)
    ensures
        yes == marked_baking(line@),
{
    let list = split_words(line);
    contains_text(&list, "bake")
}

/// All state of a box lies right in its state directory: its images, its
/// recipe, its sockets and its logs.
pub proof fn box_state_lies_in_its_directory(bx: BoxView, file: Seq<char>)
    requires
        file == "rootfs.img"@ || file == "recipe.yaml"@ || file == "terra.pid"@ || file
            == "terra.log"@ || file == "diagnostics.log"@ || file == "c"@ || file == "a"@,
    ensures
        path::lies_under(path::placed(bx.dir, file), bx.dir),
        path::components(path::placed(bx.dir, file)) == path::components(bx.dir).push(ComponentView::Normal(file)),
{
    reveal_strlit("rootfs.img");
    reveal_strlit("recipe.yaml");
    reveal_strlit("terra.pid");
    reveal_strlit("terra.log");
    reveal_strlit("diagnostics.log");
    reveal_strlit("c");
    reveal_strlit("a");
    assert(file[0] != '.');
    path::lemma_components_placed(bx.dir, file);
}

/// The two sockets of a box have paths of one length, so that one test of it
/// covers both.
pub proof fn sockets_have_one_length(bx: BoxView)
    ensures
        text::utf8_len(path::placed(bx.dir, "c"@)) == text::utf8_len(path::placed(bx.dir, "a"@)),
{
    reveal_strlit("c");
    reveal_strlit("a");
    let base = if bx.dir.len() == 0 || bx.dir.last() == '/' { bx.dir } else { bx.dir.push('/') };
    assert(path::placed(bx.dir, "c"@) =~= base + "c"@);
    assert(path::placed(bx.dir, "a"@) =~= base + "a"@);
    crate::text::lemma_utf8_len_add(base, "c"@);
    crate::text::lemma_utf8_len_add(base, "a"@);
    assert(vstd::utf8::is_ascii_chars("c"@));
    assert(vstd::utf8::is_ascii_chars("a"@));
    vstd::utf8::is_ascii_chars_encode_utf8("c"@);
    vstd::utf8::is_ascii_chars_encode_utf8("a"@);
}

/// A name that came from another machine addresses a file right in the box's
/// directory or none: the file it names, never one outside.
pub proof fn named_images_lie_in_the_box(bx: BoxView, name: Seq<char>)
    requires
        named_image(bx, name) is Some,
    ensures
        named_image(bx, name)->0 == path::placed(bx.dir, name),
        path::components(named_image(bx, name)->0) == path::components(bx.dir).push(
            ComponentView::Normal(name),
        ),
        path::lies_under(named_image(bx, name)->0, bx.dir),
{
    reveal_strlit("rootfs.img");
    reveal_strlit("vol-");
    reveal_strlit(".img");
    if name != "rootfs.img"@ {
        let volume = name.subrange(4, name.len() - 4);
        assert(name =~= volume_file(volume)) by {
            assert(name.take(4) == "vol-"@);
            assert(name.skip(name.len() - 4) == ".img"@);
            assert forall|i: int| 0 <= i < name.len() implies name[i] == volume_file(volume)[i] by {
                if i < 4 {
                    assert(name[i] == name.take(4)[i]);
                } else if i >= name.len() - 4 {
                    assert(name[i] == name.skip(name.len() - 4)[i - (name.len() - 4)]);
                }
            }
        }
        assert(!name.contains('/')) by {
            if name.contains('/') {
                let i = choose|i: int| 0 <= i < name.len() && name[i] == '/';
                if 4 <= i < name.len() - 4 {
                    assert(volume[i - 4] == '/');
                    assert(volume.contains('/'));
                }
            }
        }
    }
    assert(name[0] != '.');
    path::lemma_components_placed(bx.dir, name);
}

/// The image of every plainly named volume is addressed by its own name.
pub proof fn volume_images_are_found_by_name(bx: BoxView, volume: Seq<char>)
    requires
        volume.len() > 0,
        volume != "."@,
        volume != ".."@,
        !volume.contains('/'),
        !volume.contains('\\'),
    ensures
        named_image(bx, volume_file(volume)) == Some(path::placed(bx.dir, volume_file(volume))),
{
    reveal_strlit("rootfs.img");
    reveal_strlit("vol-");
    reveal_strlit(".img");
    let name = volume_file(volume);
    assert(name.take(4) =~= "vol-"@);
    assert(name.skip(name.len() - 4) =~= ".img"@);
    assert(name.subrange(4, name.len() - 4) =~= volume);
    assert(name[0] == 'v');
}

/// Where everything terra keeps lies.
pub fn terra_home_path(home: &Home) -> (path: Result<String, Error>)
    ensures
        match path {
            Ok(text) => home.dir is Ok && text@ == path::placed(home.dir->Ok_0@, ".terra"@),
            Err(error) => home.dir is Err && error@ == error::refusal(home.dir->Err_0@),
        },
{
    match &home.dir {
        Ok(dir) => Ok(join(dir.as_str(), ".terra")),
        Err(message) => Err(Error::new(message.as_str().to_owned())),
    }
}

/// Where a setting puts a directory, or why it cannot; without one it lies in
/// terra's own.
pub open spec fn directory_path(
    home: HomeView,
    setting: Option<Seq<char>>,
    field: Seq<char>,
    default: Seq<char>,
) -> Result<Seq<char>, Refusal> {
    match setting {
        Some(dir) => match recipe::expanded(dir, home) {
            Err(refused) => Err(refused),
            Ok(path) => if host::is_absolute(path, home.os) {
                Ok(path)
            } else {
                Err(
                    error::refusal(
                        field
                            + " in config.yaml must be an absolute path or start with '~/': '"@
                            + dir + "'"@,
                    ),
                )
            },
        },
        None => match home.dir {
            Ok(dir) => Ok(path::placed(path::placed(dir, ".terra"@), default)),
            Err(message) => Err(error::refusal(message)),
        },
    }
}

fn settings_path(
    home: &Home,
    setting: &Option<String>,
    field: &str,
    default: &str,
) -> (path: Result<String, Error>)
    ensures
        ({
            let expected = directory_path(home@, text::text_of(*setting), field@, default@);
            match path {
                Ok(text) => expected == Ok::<_, Refusal>(text@),
                Err(error) => expected == Err::<Seq<char>, _>(error@),
            }
        }),
{
    match setting {
        Some(dir) => {
            let path = match expand_tilde(dir.as_str(), home) {
                Ok(path) => path,
                Err(error) => {
                    return Err(error);
                },
            };
            if stands_alone(path.as_str(), home.os) {
                return Ok(path);
            }
            let mut message: String = field.to_owned();
            message.append(
                " in config.yaml must be an absolute path or start with '~/': '",
            );
            message.append(dir.as_str());
            message.append("'");
            Err(Error::new(message))
        },
        None => match terra_home_path(home) {
            Ok(terra) => Ok(join(terra.as_str(), default)),
            Err(error) => Err(error),
        },
    }
}

/// Where all boxes are kept; `boxes` is what the settings say of it.
pub fn box_home_path(home: &Home, boxes: &Option<String>) -> (path: Result<
    String,
    Error,
>)
    ensures
        ({
            let expected = directory_path(
                home@,
                text::text_of(*boxes),
                "storage.boxes"@,
                "box"@,
            );
            match path {
                Ok(text) => expected == Ok::<_, Refusal>(text@),
                Err(error) => expected == Err::<Seq<char>, _>(error@),
            }
        }),
{
    settings_path(home, boxes, "storage.boxes", "box")
}

/// Where the kernel and the boot volume are unpacked; `cache` is what the
/// settings say of it.
pub fn cache_path(home: &Home, cache: &Option<String>) -> (path: Result<
    String,
    Error,
>)
    ensures
        ({
            let expected = directory_path(
                home@,
                text::text_of(*cache),
                "storage.cache"@,
                "cache"@,
            );
            match path {
                Ok(text) => expected == Ok::<_, Refusal>(text@),
                Err(error) => expected == Err::<Seq<char>, _>(error@),
            }
        }),
{
    settings_path(home, cache, "storage.cache", "cache")
}

/// The directory of all boxes of a project.
pub fn project_state_dir(box_home: &str, real_dir: &str) -> (path: String)
    ensures
        path@ == path::placed(box_home@, slug_of(real_dir@)),
{
    join(box_home, slug(real_dir).as_str())
}

/// What was found in a directory: a name, where it is text, and whether it is
/// a directory.
#[derive(Debug)]
pub struct FoundEntry {
    pub name: Option<String>,
    pub is_dir: bool,
}

#[verifier::ext_equal]
pub struct FoundView {
    pub name: Option<Seq<char>>,
    pub is_dir: bool,
}

impl View for FoundEntry {
    type V = FoundView;

    open spec fn view(&self) -> FoundView {
        FoundView { name: text::text_of(self.name), is_dir: self.is_dir }
    }
}

/// The names of the directories among what was found.
pub open spec fn directories(found: Seq<FoundView>) -> Seq<Seq<char>>
    decreases found.len(),
{
    if found.len() == 0 {
        Seq::empty()
    } else {
        let before = directories(found.drop_last());
        match found.last().name {
            Some(name) => if found.last().is_dir {
                before.push(name)
            } else {
                before
            },
            None => before,
        }
    }
}

/// The names of the boxes of a project, in no order; `found` is what lies in
/// the directory of its boxes.
pub fn boxes_in(found: &Vec<FoundEntry>) -> (names: Vec<String>)
    ensures
        text::texts(names@) == directories(crate::text::views(found@)),
{
    let ghost all = crate::text::views(found@);
    let mut names: Vec<String> = Vec::new();
    let mut i: usize = 0;
    proof {
        assert(text::texts(names@) =~= Seq::empty());
        assert(all.take(0) =~= Seq::empty());
    }
    while i < found.len()
        invariant
            i <= found@.len(),
            all == crate::text::views(found@),
            text::texts(names@) == directories(all.take(i as int)),
        decreases found.len() - i,
    {
        let ghost before = names@;
        proof {
            assert(all.take(i + 1).drop_last() =~= all.take(i as int));
            assert(all.take(i + 1).last() == found@[i as int]@);
        }
        if let Some(name) = &found[i].name {
            if found[i].is_dir {
                names.push(name.as_str().to_owned());
                proof {
                    crate::text::lemma_texts_push(before, names@.last());
                }
            }
        }
        i = i + 1;
    }
    proof {
        assert(all.take(i as int) =~= all);
    }
    names
}

/// The names of the boxes of a project, sorted.
pub fn existing_names(found: &Vec<FoundEntry>) -> (names: Vec<String>)
    ensures
        text::texts(names@) == ordered::sorted(directories(crate::text::views(found@))),
{
    sort_texts(&boxes_in(found))
}

/// The project that a file says boxes are of.
pub open spec fn origin_in(text: Seq<char>) -> Option<Seq<char>> {
    if unicode::trimmed(text).len() == 0 {
        None
    } else {
        Some(unicode::trimmed(text))
    }
}

/// The project a directory of boxes belongs to, by what its origin file says.
pub fn read_origin(text: &str) -> (project: Option<String>)
    ensures
        text::text_of(project) == origin_in(text@),
{
    let inner = trim(text);
    if inner.as_str().unicode_len() == 0 {
        None
    } else {
        Some(inner)
    }
}

} // verus!
