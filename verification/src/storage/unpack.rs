//! Taking images out of an artifact, step by step: each is announced, admitted
//! by the recipe of the box, and staged whole before the next is looked at.

use crate::bytes;
use crate::config::{Config, ConfigView};
use crate::error::{self, Error, Refusal, refuse};
use crate::path::{self, join};
use crate::render::{self, escape_printable_path};
use crate::state::{BoxRef, BoxView};
use crate::storage::artifact::{
    self, Admitted, AdmittedView, HeaderView, STORAGE_ARTIFACT_MAGIC, check_artifact,
    check_restored, name_length, read_entry_header,
};
use crate::text;
use vstd::prelude::*;

verus! {

/// How many bytes of an image are read at most at a time.
pub const CHUNK_BYTES: usize = 65536;

/// What taking images out of an artifact asks for.
#[derive(Debug)]
pub enum UnpackStep {
    /// To read from the artifact, so many bytes at most.
    Read(usize),
    /// To make a file that takes its path only once it is placed.
    Create(String),
    /// To put bytes behind those written so far, with a hole where they are all
    /// zero.
    Append(Vec<u8>),
    /// To give the file its length.
    Resize(u64),
    /// To put the file at its path.
    Place(String),
    /// Nothing: it is over.
    Nothing,
}

#[verifier::ext_equal]
pub enum UnpackStepView {
    Read(nat),
    Create(Seq<char>),
    Append(Seq<u8>),
    Resize(u64),
    Place(Seq<char>),
    Nothing,
}

impl View for UnpackStep {
    type V = UnpackStepView;

    open spec fn view(&self) -> UnpackStepView {
        match self {
            UnpackStep::Read(n) => UnpackStepView::Read(*n as nat),
            UnpackStep::Create(path) => UnpackStepView::Create(path@),
            UnpackStep::Append(bytes) => UnpackStepView::Append(bytes@),
            UnpackStep::Resize(len) => UnpackStepView::Resize(*len),
            UnpackStep::Place(path) => UnpackStepView::Place(path@),
            UnpackStep::Nothing => UnpackStepView::Nothing,
        }
    }
}

/// What came of it.
#[derive(Debug)]
pub enum UnpackEvent {
    /// What was read; nothing at the end of the artifact.
    Read(Vec<u8>),
    Interrupted,
    Done,
    Failed(Error),
}

#[verifier::ext_equal]
pub enum UnpackEventView {
    Read(Seq<u8>),
    Interrupted,
    Done,
    Failed(Refusal),
}

impl View for UnpackEvent {
    type V = UnpackEventView;

    open spec fn view(&self) -> UnpackEventView {
        match self {
            UnpackEvent::Read(bytes) => UnpackEventView::Read(bytes@),
            UnpackEvent::Interrupted => UnpackEventView::Interrupted,
            UnpackEvent::Done => UnpackEventView::Done,
            UnpackEvent::Failed(error) => UnpackEventView::Failed(error@),
        }
    }
}

/// How far it has come.
#[derive(Debug)]
enum UnpackStage {
    /// The mark, as far as it was read.
    Mark(Vec<u8>),
    /// What stands in front of the next image, as far as it was read.
    Head(Vec<u8>),
    Creating(String, u64),
    /// An image of which so many bytes are written.
    Receiving(String, u64, u64),
    Appending(String, u64, u64, Vec<u8>),
    Sizing(String, u64),
    Placing(String, u64),
    Finished(Result<Vec<String>, Error>),
}

#[verifier::ext_equal]
pub enum UnpackStageView {
    Mark(Seq<u8>),
    Head(Seq<u8>),
    Creating(Seq<char>, u64),
    Receiving(Seq<char>, u64, u64),
    Appending(Seq<char>, u64, u64, Seq<u8>),
    Sizing(Seq<char>, u64),
    Placing(Seq<char>, u64),
    Finished(Result<Seq<Seq<char>>, Refusal>),
}

impl View for UnpackStage {
    type V = UnpackStageView;

    closed spec fn view(&self) -> UnpackStageView {
        match self {
            UnpackStage::Mark(bytes) => UnpackStageView::Mark(bytes@),
            UnpackStage::Head(bytes) => UnpackStageView::Head(bytes@),
            UnpackStage::Creating(name, len) => UnpackStageView::Creating(name@, *len),
            UnpackStage::Receiving(name, len, written) => UnpackStageView::Receiving(
                name@,
                *len,
                *written,
            ),
            UnpackStage::Appending(name, len, written, chunk) => UnpackStageView::Appending(
                name@,
                *len,
                *written,
                chunk@,
            ),
            UnpackStage::Sizing(name, len) => UnpackStageView::Sizing(name@, *len),
            UnpackStage::Placing(name, len) => UnpackStageView::Placing(name@, *len),
            UnpackStage::Finished(Ok(names)) => UnpackStageView::Finished(Ok(text::texts(names@))),
            UnpackStage::Finished(Err(error)) => UnpackStageView::Finished(Err(error@)),
        }
    }
}

/// Takes the images out of an artifact and stages them for a box.
#[derive(Debug)]
pub struct Unpack {
    bx: BoxRef,
    cfg: Config,
    from: String,
    staging_dir: String,
    admitted: Admitted,
    stage: UnpackStage,
}

#[verifier::ext_equal]
pub struct UnpackView {
    pub bx: BoxView,
    pub cfg: ConfigView,
    /// The path of the artifact.
    pub from: Seq<char>,
    pub staging_dir: Seq<char>,
    pub admitted: AdmittedView,
    pub stage: UnpackStageView,
}

impl View for Unpack {
    type V = UnpackView;

    closed spec fn view(&self) -> UnpackView {
        UnpackView {
            bx: self.bx@,
            cfg: self.cfg@,
            from: self.from@,
            staging_dir: self.staging_dir@,
            admitted: self.admitted@,
            stage: self.stage@,
        }
    }
}

/// What every artifact starts with.
pub open spec fn mark() -> Seq<u8> {
    vstd::utf8::encode_utf8(STORAGE_ARTIFACT_MAGIC@)
}

/// How many bytes of a header are still to be read.
pub open spec fn head_left(bytes: Seq<u8>) -> int {
    if bytes.len() < 10 {
        10 - bytes.len()
    } else {
        artifact::header_size(bytes) - bytes.len()
    }
}

/// Whether it is in a state it can be in.
pub open spec fn unpack_stands(m: UnpackView) -> bool {
    &&& artifact::total_limit(m.cfg) <= u64::MAX
    &&& match m.stage {
        UnpackStageView::Mark(bytes) => bytes.len() < 16,
        UnpackStageView::Head(bytes) => head_left(bytes) > 0,
        UnpackStageView::Receiving(_, len, written) => written < len,
        UnpackStageView::Appending(_, len, written, chunk) => chunk.len() <= len - written,
        _ => true,
    }
}

/// How many bytes are asked for at most.
pub open spec fn bytes_wanted(stage: UnpackStageView) -> nat {
    match stage {
        UnpackStageView::Mark(bytes) => (16 - bytes.len()) as nat,
        UnpackStageView::Head(bytes) => head_left(bytes) as nat,
        UnpackStageView::Receiving(_, len, written) => if len - written < CHUNK_BYTES {
            (len - written) as nat
        } else {
            CHUNK_BYTES as nat
        },
        _ => 0,
    }
}

/// What is asked for.
pub open spec fn unpack_asks(m: UnpackView) -> UnpackStepView {
    match m.stage {
        UnpackStageView::Mark(_) | UnpackStageView::Head(_) | UnpackStageView::Receiving(
            _,
            _,
            _,
        ) => UnpackStepView::Read(bytes_wanted(m.stage)),
        UnpackStageView::Creating(name, _) => UnpackStepView::Create(
            path::placed(m.staging_dir, name),
        ),
        UnpackStageView::Appending(_, _, _, chunk) => UnpackStepView::Append(chunk),
        UnpackStageView::Sizing(_, len) => UnpackStepView::Resize(len),
        UnpackStageView::Placing(name, _) => UnpackStepView::Place(path::placed(m.staging_dir, name)),
        UnpackStageView::Finished(_) => UnpackStepView::Nothing,
    }
}

/// The stage the mark leads to.
pub open spec fn after_mark(from: Seq<char>, bytes: Seq<u8>) -> UnpackStageView {
    if bytes == mark() {
        UnpackStageView::Head(Seq::empty())
    } else {
        UnpackStageView::Finished(
            Err(
                error::refusal(
                    render::printable(from)
                        + " is not a terra storage artifact (`terra <box> storage export` writes one)"@,
                ),
            ),
        )
    }
}

/// What a header that was read whole leads to.
pub open spec fn after_head(m: UnpackView, bytes: Seq<u8>) -> UnpackView {
    match artifact::header_in(bytes) {
        HeaderView::Entry { name, len } => match artifact::admission(
            m.bx,
            m.cfg,
            m.from,
            m.admitted,
            name,
            len as u64,
        ) {
            Ok(admitted) => UnpackView {
                admitted,
                stage: UnpackStageView::Creating(name, len as u64),
                ..m
            },
            Err(error) => unpack_ends(m, error),
        },
        HeaderView::Unnamed(name) => unpack_ends(
            m,
            error::refusal("the artifact names a file in no known encoding"@) + error::refusal(
                crate::unicode::utf8_complaint(name),
            ),
        ),
        _ => unpack_ends(m, cut_short()),
    }
}

/// The end of the artifact where an image could start.
pub open spec fn after_all(m: UnpackView) -> UnpackView {
    let stage = if m.admitted.names.len() == 0 {
        UnpackStageView::Finished(
            Err(error::refusal(render::printable(m.from) + " holds no images"@)),
        )
    } else {
        UnpackStageView::Finished(Ok(m.admitted.names))
    };
    UnpackView { stage, ..m }
}

/// An image of which so many bytes are written.
pub open spec fn receiving(name: Seq<char>, len: u64, written: u64) -> UnpackStageView {
    if written == len {
        UnpackStageView::Sizing(name, len)
    } else {
        UnpackStageView::Receiving(name, len, written)
    }
}

pub open spec fn unpack_ends(m: UnpackView, error: Refusal) -> UnpackView {
    UnpackView { stage: UnpackStageView::Finished(Err(error)), ..m }
}

/// What is said of a header that breaks off.
pub open spec fn cut_short() -> Refusal {
    error::refusal("reading the artifact"@) + error::refusal("failed to fill whole buffer"@)
}

/// What is said of an image that could not be written or sized.
pub open spec fn spoiled(what: Seq<char>, m: UnpackView, name: Seq<char>, why: Refusal) -> Refusal {
    error::refusal(what + render::printable(path::placed(m.staging_dir, name))) + why
}

/// What becomes of it once it is told what came of what it asked for. What it
/// did not ask for changes nothing, and bytes it did not ask for are dropped.
pub open spec fn unpack_after(m: UnpackView, event: UnpackEventView) -> UnpackView {
    let at = |stage: UnpackStageView| UnpackView { stage, ..m };
    match m.stage {
        UnpackStageView::Mark(bytes) => match event {
            UnpackEventView::Read(chunk) => {
                let got = bytes + bytes::at_most(chunk, bytes_wanted(m.stage));
                if chunk.len() > 0 && got.len() < 16 {
                    at(UnpackStageView::Mark(got))
                } else {
                    at(after_mark(m.from, got))
                }
            },
            UnpackEventView::Failed(_) => at(after_mark(m.from, bytes)),
            _ => m,
        },
        UnpackStageView::Head(bytes) => match event {
            UnpackEventView::Read(chunk) => {
                let got = bytes + bytes::at_most(chunk, bytes_wanted(m.stage));
                if chunk.len() == 0 {
                    if bytes.len() == 0 {
                        after_all(m)
                    } else {
                        unpack_ends(m, cut_short())
                    }
                } else if head_left(got) > 0 {
                    at(UnpackStageView::Head(got))
                } else {
                    after_head(m, got)
                }
            },
            UnpackEventView::Failed(why) => unpack_ends(
                m,
                error::refusal("reading the artifact"@) + why,
            ),
            _ => m,
        },
        UnpackStageView::Creating(name, len) => match event {
            UnpackEventView::Done => at(receiving(name, len, 0)),
            UnpackEventView::Failed(why) => unpack_ends(m, why),
            _ => m,
        },
        UnpackStageView::Receiving(name, len, written) => match event {
            UnpackEventView::Read(chunk) => if chunk.len() == 0 {
                unpack_ends(
                    m,
                    error::refusal(
                        "the artifact ends part-way through "@ + render::printable(
                            path::placed(m.staging_dir, name),
                        ),
                    ),
                )
            } else {
                at(
                    UnpackStageView::Appending(
                        name,
                        len,
                        written,
                        bytes::at_most(chunk, bytes_wanted(m.stage)),
                    ),
                )
            },
            UnpackEventView::Failed(why) => unpack_ends(
                m,
                error::refusal("reading the artifact"@) + why,
            ),
            _ => m,
        },
        UnpackStageView::Appending(name, len, written, chunk) => match event {
            UnpackEventView::Done => at(receiving(name, len, (written + chunk.len()) as u64)),
            UnpackEventView::Failed(why) => unpack_ends(m, spoiled("writing "@, m, name, why)),
            _ => m,
        },
        UnpackStageView::Sizing(name, len) => match event {
            UnpackEventView::Done => at(UnpackStageView::Placing(name, len)),
            UnpackEventView::Failed(why) => unpack_ends(m, spoiled("sizing "@, m, name, why)),
            _ => m,
        },
        UnpackStageView::Placing(name, len) => match event {
            UnpackEventView::Done => at(UnpackStageView::Head(Seq::empty())),
            UnpackEventView::Failed(why) => unpack_ends(m, why),
            _ => m,
        },
        UnpackStageView::Finished(_) => m,
    }
}

/// Puts what was read behind what there is, as much of it as was asked for.
fn gather(bytes: Vec<u8>, chunk: &Vec<u8>, wanted: usize) -> (got: Vec<u8>)
    ensures
        got@ == bytes@ + bytes::at_most(chunk@, wanted as nat),
{
    let ghost start = bytes@;
    let mut got = bytes;
    let n: usize = if chunk.len() <= wanted { chunk.len() } else { wanted };
    let mut i: usize = 0;
    proof {
        assert(got@ =~= start + chunk@.take(0));
    }
    while i < n
        invariant
            i <= n <= chunk@.len(),
            got@ == start + chunk@.take(i as int),
        decreases n - i,
    {
        got.push(chunk[i]);
        proof {
            assert(got@ =~= start + chunk@.take(i + 1));
        }
        i = i + 1;
    }
    proof {
        assert(chunk@.take(n as int) =~= bytes::at_most(chunk@, wanted as nat));
    }
    got
}

/// How many bytes of a header are still to be read.
fn left_of_head(bytes: &Vec<u8>) -> (n: usize)
    requires
        head_left(bytes@) >= 0,
    ensures
        n == head_left(bytes@),
{
    if bytes.len() < 10 {
        10 - bytes.len()
    } else {
        10 + name_length(bytes) - bytes.len()
    }
}

/// The mark every artifact starts with has sixteen bytes.
pub proof fn marks_have_one_length()
    ensures
        mark().len() == 16,
{
    reveal_strlit("terra-storage-1\n");
    let text = STORAGE_ARTIFACT_MAGIC@;
    assert(vstd::utf8::is_ascii_chars(text));
    vstd::utf8::is_ascii_chars_encode_utf8(text);
}

fn header_cut_short() -> (error: Error)
    ensures
        error@ == cut_short(),
{
    refuse("failed to fill whole buffer").context("reading the artifact".to_owned())
}

fn spoil(what: &str, path: &str, why: Error) -> (error: Error)
    ensures
        error@ == error::refusal(what@ + render::printable(path@)) + why@,
{
    let mut message: String = what.to_owned();
    message.append(escape_printable_path(path).as_str());
    why.context(message)
}

fn stage_after_mark(from: &str, bytes: &Vec<u8>) -> (stage: UnpackStage)
    ensures
        stage@ == after_mark(from@, bytes@),
{
    match check_artifact(bytes, from) {
        Ok(()) => {
            let none: Vec<u8> = Vec::new();
            proof {
                assert(none@ =~= Seq::empty());
            }
            UnpackStage::Head(none)
        },
        Err(error) => UnpackStage::Finished(Err(error)),
    }
}

fn stage_receiving(name: String, len: u64, written: u64) -> (stage: UnpackStage)
    ensures
        stage@ == receiving(name@, len, written),
{
    if written == len {
        UnpackStage::Sizing(name, len)
    } else {
        UnpackStage::Receiving(name, len, written)
    }
}

impl Unpack {
    #[verifier::type_invariant]
    closed spec fn stands(&self) -> bool {
        unpack_stands(self@)
    }

    /// The images of an artifact for a box with a recipe, staged in a directory.
    pub fn start(bx: &BoxRef, cfg: Config, from: &str, staging_dir: &str) -> (begun: Unpack)
        requires
            artifact::total_limit(cfg@) <= u64::MAX,
        ensures
            begun@ == (UnpackView {
                bx: bx@,
                cfg: cfg@,
                from: from@,
                staging_dir: staging_dir@,
                admitted: AdmittedView { names: Seq::empty(), total: 0 },
                stage: UnpackStageView::Mark(Seq::empty()),
            }),
    {
        let none: Vec<u8> = Vec::new();
        proof {
            assert(none@ =~= Seq::empty());
        }
        Unpack {
            bx: bx.copy(),
            cfg,
            from: from.to_owned(),
            staging_dir: staging_dir.to_owned(),
            admitted: Admitted::new(),
            stage: UnpackStage::Mark(none),
        }
    }

    fn wanted(stage: &UnpackStage) -> (n: usize)
        requires
            match stage@ {
                UnpackStageView::Mark(bytes) => bytes.len() < 16,
                UnpackStageView::Head(bytes) => head_left(bytes) > 0,
                UnpackStageView::Receiving(_, len, written) => written < len,
                _ => true,
            },
        ensures
            n == bytes_wanted(stage@),
    {
        match stage {
            UnpackStage::Mark(bytes) => 16 - bytes.len(),
            UnpackStage::Head(bytes) => left_of_head(bytes),
            UnpackStage::Receiving(_, len, written) => {
                let left: u64 = *len - *written;
                if left < CHUNK_BYTES as u64 {
                    left as usize
                } else {
                    CHUNK_BYTES
                }
            },
            _ => 0,
        }
    }

    /// What is to be done next.
    pub fn next(&self) -> (step: UnpackStep)
        ensures
            step@ == unpack_asks(self@),
    {
        proof {
            use_type_invariant(self);
        }
        match &self.stage {
            UnpackStage::Mark(_) => UnpackStep::Read(Unpack::wanted(&self.stage)),
            UnpackStage::Head(_) => UnpackStep::Read(Unpack::wanted(&self.stage)),
            UnpackStage::Receiving(_, _, _) => UnpackStep::Read(Unpack::wanted(&self.stage)),
            UnpackStage::Creating(name, _) => UnpackStep::Create(
                join(self.staging_dir.as_str(), name.as_str()),
            ),
            UnpackStage::Appending(_, _, _, chunk) => {
                let bytes: Vec<u8> = chunk.clone();
                proof {
                    assert(bytes@ =~= chunk@);
                }
                UnpackStep::Append(bytes)
            },
            UnpackStage::Sizing(_, len) => UnpackStep::Resize(*len),
            UnpackStage::Placing(name, _) => UnpackStep::Place(
                join(self.staging_dir.as_str(), name.as_str()),
            ),
            UnpackStage::Finished(_) => UnpackStep::Nothing,
        }
    }

    /// What a header that was read whole leads to.
    fn announced(
        bx: BoxRef,
        cfg: Config,
        from: String,
        staging_dir: String,
        admitted: Admitted,
        bytes: &Vec<u8>,
        Ghost(was): Ghost<UnpackView>,
    ) -> (next: Unpack)
        requires
            bytes@.len() >= 10,
            unpack_stands(was),
            was.bx == bx@,
            was.cfg == cfg@,
            was.from == from@,
            was.staging_dir == staging_dir@,
            was.admitted == admitted@,
        ensures
            next@ == after_head(was, bytes@),
    {
        let (admitted, stage) = match read_entry_header(bytes, "failed to fill whole buffer") {
            Ok(Some((name, len))) => {
                let so_far = admitted.copy();
                match admitted.accept(&bx, &cfg, from.as_str(), name.as_str(), len) {
                    Ok(more) => (more, UnpackStage::Creating(name, len)),
                    Err(error) => (so_far, UnpackStage::Finished(Err(error))),
                }
            },
            Ok(None) => (admitted, UnpackStage::Finished(Err(header_cut_short()))),
            Err(error) => (admitted, UnpackStage::Finished(Err(error))),
        };
        Unpack { bx, cfg, from, staging_dir, admitted, stage }
    }

    /// What becomes of it once it is told what came of what it asked for.
    pub fn advance(self, event: UnpackEvent) -> (next: Unpack)
        ensures
            next@ == unpack_after(self@, event@),
    {
        proof {
            use_type_invariant(&self);
            marks_have_one_length();
        }
        let ghost was = self@;
        let wanted: usize = Unpack::wanted(&self.stage);
        let bx = self.bx;
        let cfg = self.cfg;
        let from = self.from;
        let staging_dir = self.staging_dir;
        let admitted = self.admitted;
        let stage = match (self.stage, event) {
            (UnpackStage::Mark(bytes), UnpackEvent::Read(chunk)) => {
                let got = gather(bytes, &chunk, wanted);
                if chunk.len() > 0 && got.len() < 16 {
                    UnpackStage::Mark(got)
                } else {
                    stage_after_mark(from.as_str(), &got)
                }
            },
            (UnpackStage::Mark(bytes), UnpackEvent::Failed(_)) => stage_after_mark(
                from.as_str(),
                &bytes,
            ),
            (UnpackStage::Head(bytes), UnpackEvent::Read(chunk)) => {
                if chunk.len() == 0 {
                    if bytes.len() > 0 {
                        UnpackStage::Finished(Err(header_cut_short()))
                    } else {
                        let names = admitted.copy().finish(from.as_str());
                        UnpackStage::Finished(names)
                    }
                } else {
                    let ghost start = bytes@;
                    let got = gather(bytes, &chunk, wanted);
                    proof {
                        if start.len() >= 10 {
                            assert(got@.take(2) =~= start.take(2));
                        }
                    }
                    if left_of_head(&got) > 0 {
                        UnpackStage::Head(got)
                    } else {
                        return Unpack::announced(
                            bx,
                            cfg,
                            from,
                            staging_dir,
                            admitted,
                            &got,
                            Ghost(was),
                        );
                    }
                }
            },
            (UnpackStage::Head(_), UnpackEvent::Failed(why)) => UnpackStage::Finished(
                Err(why.context("reading the artifact".to_owned())),
            ),
            (UnpackStage::Creating(name, len), UnpackEvent::Done) => stage_receiving(name, len, 0),
            (UnpackStage::Creating(_, _), UnpackEvent::Failed(why)) => UnpackStage::Finished(
                Err(why),
            ),
            (UnpackStage::Receiving(name, len, written), UnpackEvent::Read(chunk)) => {
                if chunk.len() == 0 {
                    let path = join(staging_dir.as_str(), name.as_str());
                    match check_restored(path.as_str(), written, len) {
                        Ok(()) => UnpackStage::Sizing(name, len),
                        Err(error) => UnpackStage::Finished(Err(error)),
                    }
                } else {
                    let none: Vec<u8> = Vec::new();
                    let got = gather(none, &chunk, wanted);
                    proof {
                        assert(got@ =~= bytes::at_most(chunk@, wanted as nat));
                    }
                    UnpackStage::Appending(name, len, written, got)
                }
            },
            (UnpackStage::Receiving(_, _, _), UnpackEvent::Failed(why)) => UnpackStage::Finished(
                Err(why.context("reading the artifact".to_owned())),
            ),
            (UnpackStage::Appending(name, len, written, chunk), UnpackEvent::Done) => {
                stage_receiving(name, len, written + chunk.len() as u64)
            },
            (UnpackStage::Appending(name, _, _, _), UnpackEvent::Failed(why)) => {
                let path = join(staging_dir.as_str(), name.as_str());
                UnpackStage::Finished(Err(spoil("writing ", path.as_str(), why)))
            },
            (UnpackStage::Sizing(name, len), UnpackEvent::Done) => UnpackStage::Placing(name, len),
            (UnpackStage::Sizing(name, _), UnpackEvent::Failed(why)) => {
                let path = join(staging_dir.as_str(), name.as_str());
                UnpackStage::Finished(Err(spoil("sizing ", path.as_str(), why)))
            },
            (UnpackStage::Placing(_, _), UnpackEvent::Done) => {
                let none: Vec<u8> = Vec::new();
                proof {
                    assert(none@ =~= Seq::empty());
                }
                UnpackStage::Head(none)
            },
            (UnpackStage::Placing(_, _), UnpackEvent::Failed(why)) => UnpackStage::Finished(
                Err(why),
            ),
            (stage, _) => stage,
        };
        Unpack { bx, cfg, from, staging_dir, admitted, stage }
    }

    /// The names of the images that were staged, or what went wrong; `None`
    /// while it is under way.
    pub fn into_result(self) -> (result: Option<Result<Vec<String>, Error>>)
        ensures
            match self@.stage {
                UnpackStageView::Finished(Ok(names)) => result is Some && result->0 is Ok
                    && text::texts(result->0->Ok_0@) == names,
                UnpackStageView::Finished(Err(error)) => result is Some && result->0 is Err
                    && result->0->Err_0@ == error,
                _ => result is None,
            },
    {
        match self.stage {
            UnpackStage::Finished(result) => Some(result),
            _ => None,
        }
    }
}

} // verus!
