//! What two files hold, compared by their SHA-256 digests.

use crate::error::{self, Error, Refusal, refuse};
use crate::path::{self, join};
use crate::state;
use crate::sync::entry::SyncDirection;
use crate::text;
use sha2::Digest;
use vstd::prelude::*;

verus! {

/// `Sha256` of the `sha2` crate: a digest under way.
#[verifier::external_type_specification]
#[verifier::external_body]
pub struct ExSha256(sha2::Sha256);

/// The bytes a digest under way has been given, in order.
pub uninterp spec fn absorbed(digest: sha2::Sha256) -> Seq<u8>;

/// `Sha256::new` of the `sha2` crate: a digest of no bytes yet.
#[verifier::external_body]
fn begin_digest() -> (digest: sha2::Sha256)
    ensures
        absorbed(digest) == Seq::<u8>::empty(),
{
    sha2::Sha256::new()
}

/// `Digest::update` of the `sha2` crate: the bytes are put behind those that
/// were given before.
#[verifier::external_body]
fn absorb(digest: &mut sha2::Sha256, chunk: &[u8])
    ensures
        absorbed(*final(digest)) == absorbed(*old(digest)) + chunk@,
{
    digest.update(chunk)
}

/// `Digest::finalize` of the `sha2` crate: the digest of all bytes that were
/// given, the same that `Sha256::digest` makes of them at once.
#[verifier::external_body]
fn finish_digest(digest: sha2::Sha256) -> (bytes: Vec<u8>)
    ensures
        bytes@ == state::sha256(absorbed(digest)),
        bytes@.len() == 32,
{
    digest.finalize().to_vec()
}

/// Refuses to go on with the digest of a host file that takes too long or has
/// become too large.
pub fn check_hashing(is_late: bool, total_bytes: u128, max_file_bytes: u64) -> (verdict: Result<
    (),
    Error,
>)
    ensures
        error::outcome(verdict) == hashing_verdict(is_late, total_bytes as nat, max_file_bytes),
{
    if is_late || total_bytes > max_file_bytes as u128 {
        return Err(refuse("hashing exceeded its limit"));
    }
    Ok(())
}

pub open spec fn hashing_verdict(is_late: bool, total_bytes: nat, max_file_bytes: u64) -> Result<
    (),
    Refusal,
> {
    if is_late || total_bytes > max_file_bytes {
        Err(error::refusal("hashing exceeded its limit"@))
    } else {
        Ok(())
    }
}

/// Whether a host file held still while it was read.
pub open spec fn hashed_verdict(size: u64, size_after: u64, is_same_time: bool) -> Result<
    (),
    Refusal,
> {
    if size_after == size && is_same_time {
        Ok(())
    } else {
        Err(error::refusal("source changed while hashing"@))
    }
}

/// Refuses the digest of a host file that was written to meanwhile.
pub fn check_hashed(size: u64, size_after: u64, is_same_time: bool) -> (verdict: Result<(), Error>)
    ensures
        error::outcome(verdict) == hashed_verdict(size, size_after, is_same_time),
{
    if size_after == size && is_same_time {
        return Ok(());
    }
    Err(refuse("source changed while hashing"))
}

/// What comes of reading on in a host file.
#[derive(Debug)]
pub enum HashEvent {
    Chunk(Vec<u8>),
    /// Nothing came, and it can be tried again.
    Interrupted,
    /// There is no more; how large the file is now, and whether it has the
    /// time it had.
    Ended { size_after: u64, is_same_time: bool },
    Failed(String),
}

/// A host file being read for its digest.
pub struct Hashing {
    digest: sha2::Sha256,
    total: u128,
    size: u64,
    max_file_bytes: u64,
}

/// What was read, how large the file was at first, and how large it may be.
#[verifier::ext_equal]
pub struct HashingView {
    pub content: Seq<u8>,
    pub size: u64,
    pub max_file_bytes: u64,
}

impl View for Hashing {
    type V = HashingView;

    closed spec fn view(&self) -> HashingView {
        HashingView {
            content: absorbed(self.digest),
            size: self.size,
            max_file_bytes: self.max_file_bytes,
        }
    }
}

/// What became of it.
pub enum HashStep {
    More(Hashing),
    Digest(Vec<u8>),
}

#[verifier::ext_equal]
pub enum HashStepView {
    More(HashingView),
    Digest(Seq<u8>),
}

impl View for HashStep {
    type V = HashStepView;

    open spec fn view(&self) -> HashStepView {
        match self {
            HashStep::More(hashing) => HashStepView::More(hashing@),
            HashStep::Digest(digest) => HashStepView::Digest(digest@),
        }
    }
}

/// A file read on: whether it may be is decided before what came is looked at.
pub open spec fn hashing_after(hashing: HashingView, is_late: bool, event: HashEvent) -> Result<
    HashStepView,
    Refusal,
> {
    match hashing_verdict(is_late, hashing.content.len(), hashing.max_file_bytes) {
        Err(refused) => Err(refused),
        Ok(_) => match event {
            HashEvent::Chunk(chunk) => Ok(
                HashStepView::More(HashingView { content: hashing.content + chunk@, ..hashing }),
            ),
            HashEvent::Interrupted => Ok(HashStepView::More(hashing)),
            HashEvent::Ended { size_after, is_same_time } => if size_after == hashing.size
                && is_same_time {
                Ok(HashStepView::Digest(state::sha256(hashing.content)))
            } else {
                Err(error::refusal("source changed while hashing"@))
            },
            HashEvent::Failed(why) => Err(error::refusal(why@)),
        },
    }
}

impl Hashing {
    #[verifier::type_invariant]
    spec fn counted(self) -> bool {
        self.total == absorbed(self.digest).len()
    }

    /// Begins with a file of a size.
    pub fn start(size: u64, max_file_bytes: u64) -> (hashing: Hashing)
        ensures
            hashing@ == (HashingView { content: Seq::empty(), size, max_file_bytes }),
    {
        Hashing { digest: begin_digest(), total: 0, size, max_file_bytes }
    }

    /// Takes in what came of reading on.
    pub fn advance(self, is_late: bool, event: HashEvent) -> (step: Result<HashStep, Error>)
        ensures
            match step {
                Ok(step) => hashing_after(self@, is_late, event) == Ok::<_, Refusal>(step@),
                Err(error) => hashing_after(self@, is_late, event) == Err::<HashStepView, _>(error@),
            },
    {
        proof {
            use_type_invariant(&self);
        }
        if let Err(error) = check_hashing(is_late, self.total, self.max_file_bytes) {
            return Err(error);
        }
        match event {
            HashEvent::Chunk(chunk) => {
                let mut digest = self.digest;
                absorb(&mut digest, chunk.as_slice());
                let total: u128 = self.total + chunk.len() as u128;
                Ok(
                    HashStep::More(
                        Hashing { digest, total, size: self.size, max_file_bytes: self.max_file_bytes },
                    ),
                )
            },
            HashEvent::Interrupted => Ok(HashStep::More(self)),
            HashEvent::Ended { size_after, is_same_time } => {
                if let Err(error) = check_hashed(self.size, size_after, is_same_time) {
                    return Err(error);
                }
                Ok(HashStep::Digest(finish_digest(self.digest)))
            },
            HashEvent::Failed(why) => Err(Error::new(why)),
        }
    }
}

/// Some pieces of a file put together.
pub open spec fn all_of(chunks: Seq<Seq<u8>>) -> Seq<u8>
    decreases chunks.len(),
{
    if chunks.len() == 0 {
        Seq::empty()
    } else {
        all_of(chunks.drop_last()) + chunks.last()
    }
}

/// A file after some pieces of it were read, in time; `None` where it was
/// refused.
pub open spec fn hashed_so_far(hashing: HashingView, chunks: Seq<Vec<u8>>) -> Option<HashingView>
    decreases chunks.len(),
{
    if chunks.len() == 0 {
        Some(hashing)
    } else {
        match hashed_so_far(hashing, chunks.drop_last()) {
            None => None,
            Some(before) => match hashing_after(before, false, HashEvent::Chunk(chunks.last())) {
                Ok(HashStepView::More(after)) => Some(after),
                _ => None,
            },
        }
    }
}

/// However a file comes, its digest is that of all its bytes: a file within
/// the limit that was not written to meanwhile has the digest of its content.
pub proof fn digests_are_of_the_whole_file(
    size: u64,
    max_file_bytes: u64,
    chunks: Seq<Vec<u8>>,
)
    requires
        all_of(text::views(chunks)).len() <= max_file_bytes,
    ensures
        ({
            let start = HashingView { content: Seq::empty(), size, max_file_bytes };
            let read = hashed_so_far(start, chunks);
            &&& read is Some
            &&& read->0.content == all_of(text::views(chunks))
            &&& hashing_after(
                read->0,
                false,
                HashEvent::Ended { size_after: size, is_same_time: true },
            ) == Ok::<_, Refusal>(
                HashStepView::Digest(state::sha256(all_of(text::views(chunks)))),
            )
        }),
{
    lemma_hashed_so_far(size, max_file_bytes, chunks);
}

proof fn lemma_hashed_so_far(size: u64, max_file_bytes: u64, chunks: Seq<Vec<u8>>)
    requires
        all_of(text::views(chunks)).len() <= max_file_bytes,
    ensures
        hashed_so_far(HashingView { content: Seq::empty(), size, max_file_bytes }, chunks) == Some(
            HashingView { content: all_of(text::views(chunks)), size, max_file_bytes },
        ),
    decreases chunks.len(),
{
    if chunks.len() > 0 {
        assert(text::views(chunks).drop_last() =~= text::views(chunks.drop_last()));
        lemma_hashed_so_far(size, max_file_bytes, chunks.drop_last());
    }
}

/// What comes of waiting for a digest of the box.
#[derive(Debug)]
pub enum DigestEvent {
    Late,
    /// The box is at it.
    Progress,
    Digest(Vec<u8>),
    /// Something else, as it shows.
    Other(String),
}

/// What waiting for a digest has come to.
pub open spec fn digest_taken(event: DigestEvent) -> Result<Option<Vec<u8>>, Refusal> {
    match event {
        DigestEvent::Late => Err(error::refusal("checksum exceeded its time limit"@)),
        DigestEvent::Progress => Ok(None),
        DigestEvent::Digest(digest) => Ok(Some(digest)),
        DigestEvent::Other(got) => Err(
            error::refusal("unexpected reply from agent during digest: "@ + got@),
        ),
    }
}

/// Takes in what came of waiting for a digest: the digest, `None` where there
/// is more to wait for, or a refusal.
pub fn take_digest(event: DigestEvent) -> (taken: Result<Option<Vec<u8>>, Error>)
    ensures
        match taken {
            Ok(digest) => digest_taken(event) == Ok::<_, Refusal>(digest),
            Err(error) => digest_taken(event) == Err::<Option<Vec<u8>>, _>(error@),
        },
{
    match event {
        DigestEvent::Late => Err(refuse("checksum exceeded its time limit")),
        DigestEvent::Progress => Ok(None),
        DigestEvent::Digest(digest) => Ok(Some(digest)),
        DigestEvent::Other(got) => {
            let mut message: String = "unexpected reply from agent during digest: ".to_owned();
            message.append(got.as_str());
            Err(Error::new(message))
        },
    }
}

/// The digests of one file in the tree to copy and in the tree to write.
#[derive(Debug)]
pub struct DigestPair {
    pub source: Vec<u8>,
    pub target: Vec<u8>,
}

#[verifier::ext_equal]
pub struct DigestPairView {
    pub source: Seq<u8>,
    pub target: Seq<u8>,
}

impl View for DigestPair {
    type V = DigestPairView;

    open spec fn view(&self) -> DigestPairView {
        DigestPairView { source: self.source@, target: self.target@ }
    }
}

/// The digests of the files that were compared, by path.
pub type Digests = Seq<(Seq<char>, DigestPairView)>;

/// The digests of a file, each on the side that it was made on.
pub open spec fn paired(direction: SyncDirection, guest: Seq<u8>, host: Seq<u8>) -> DigestPairView {
    if direction == SyncDirection::GuestToHost {
        DigestPairView { source: guest, target: host }
    } else {
        DigestPairView { source: host, target: guest }
    }
}

/// The digest the box made of a file and the one made on the host, as a pair.
pub fn pair_digests(direction: SyncDirection, guest: Vec<u8>, host: Vec<u8>) -> (pair: DigestPair)
    ensures
        pair@ == paired(direction, guest@, host@),
{
    if direction == SyncDirection::GuestToHost {
        DigestPair { source: guest, target: host }
    } else {
        DigestPair { source: host, target: guest }
    }
}

/// The file on the host that a path of the trees stands for.
pub open spec fn host_file(root: Seq<char>, rel_path: Seq<char>) -> Seq<char> {
    if rel_path.len() == 0 {
        root
    } else {
        path::placed(root, rel_path)
    }
}

/// The file on the host that takes part in a comparison.
pub open spec fn compared_file(
    direction: SyncDirection,
    source_root: Seq<char>,
    target_root: Seq<char>,
    rel_path: Seq<char>,
) -> Seq<char> {
    host_file(
        if direction == SyncDirection::HostToGuest {
            source_root
        } else {
            target_root
        },
        rel_path,
    )
}

/// The file on the host whose digest is compared with one of the box: below
/// the root of the tree that the host holds.
pub fn choose_host_file(
    direction: SyncDirection,
    source_root: &str,
    target_root: &str,
    rel_path: &str,
) -> (file: String)
    ensures
        file@ == compared_file(direction, source_root@, target_root@, rel_path@),
{
    let root = if direction == SyncDirection::HostToGuest { source_root } else { target_root };
    if rel_path.unicode_len() == 0 {
        root.to_owned()
    } else {
        join(root, rel_path)
    }
}

/// Whether the two digests of a pair are the same.
pub fn is_same_content(pair: &DigestPair) -> (same: bool)
    ensures
        same == (pair.source@ == pair.target@),
{
    if pair.source.len() != pair.target.len() {
        return false;
    }
    let mut i: usize = 0;
    while i < pair.source.len()
        invariant
            i <= pair.source@.len() == pair.target@.len(),
            forall|j: int| 0 <= j < i ==> pair.source@[j] == pair.target@[j],
        decreases pair.source.len() - i,
    {
        if pair.source[i] != pair.target[i] {
            return false;
        }
        i = i + 1;
    }
    proof {
        assert(pair.source@ =~= pair.target@);
    }
    true
}

} // verus!
