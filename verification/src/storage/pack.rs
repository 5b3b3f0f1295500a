//! Packing images into an artifact, step by step: the mark, then each image
//! behind its name and length.

use crate::bytes::append_bytes;
use crate::error::{self, Error, Refusal};
use crate::path::{self, file_name_of};
use crate::render::{self, escape_printable_path};
use crate::storage::artifact::{self, STORAGE_ARTIFACT_MAGIC, check_exported, write_entry_header};
use crate::text;
use vstd::prelude::*;

verus! {

/// What packing asks for.
#[derive(Debug)]
pub enum PackStep {
    /// To write bytes to the artifact.
    Write(Vec<u8>),
    /// To open an image.
    Open(String),
    /// To tell how long the open image is.
    Measure,
    /// To write the whole open image to the artifact, and to tell how many bytes
    /// that were.
    Copy,
    /// To end the compression.
    Finish,
    /// To make sure that everything was written.
    Flush,
    /// Nothing: it is over.
    Nothing,
}

#[verifier::ext_equal]
pub enum PackStepView {
    Write(Seq<u8>),
    Open(Seq<char>),
    Measure,
    Copy,
    Finish,
    Flush,
    Nothing,
}

impl View for PackStep {
    type V = PackStepView;

    open spec fn view(&self) -> PackStepView {
        match self {
            PackStep::Write(bytes) => PackStepView::Write(bytes@),
            PackStep::Open(path) => PackStepView::Open(path@),
            PackStep::Measure => PackStepView::Measure,
            PackStep::Copy => PackStepView::Copy,
            PackStep::Finish => PackStepView::Finish,
            PackStep::Flush => PackStepView::Flush,
            PackStep::Nothing => PackStepView::Nothing,
        }
    }
}

/// What came of it.
#[derive(Debug)]
pub enum PackEvent {
    Done,
    /// So many bytes.
    Bytes(u64),
    Failed(Error),
}

#[verifier::ext_equal]
pub enum PackEventView {
    Done,
    Bytes(u64),
    Failed(Refusal),
}

impl View for PackEvent {
    type V = PackEventView;

    open spec fn view(&self) -> PackEventView {
        match self {
            PackEvent::Done => PackEventView::Done,
            PackEvent::Bytes(n) => PackEventView::Bytes(*n),
            PackEvent::Failed(error) => PackEventView::Failed(error@),
        }
    }
}

/// How far it has come: which image it is at, its name, and how long it is.
#[derive(Debug)]
enum PackStage {
    Marking,
    Opening(usize, String),
    Measuring(usize, String),
    Heading(usize, u64, Vec<u8>),
    Copying(usize, u64),
    Finishing,
    Flushing,
    Finished(Result<(), Error>),
}

#[verifier::ext_equal]
pub enum PackStageView {
    Marking,
    Opening(int),
    Measuring(int),
    Heading(int, u64, Seq<u8>),
    Copying(int, u64),
    Finishing,
    Flushing,
    Finished(Result<(), Refusal>),
}

impl View for PackStage {
    type V = PackStageView;

    closed spec fn view(&self) -> PackStageView {
        match self {
            PackStage::Marking => PackStageView::Marking,
            PackStage::Opening(i, _) => PackStageView::Opening(*i as int),
            PackStage::Measuring(i, _) => PackStageView::Measuring(*i as int),
            PackStage::Heading(i, len, header) => PackStageView::Heading(*i as int, *len, header@),
            PackStage::Copying(i, len) => PackStageView::Copying(*i as int, *len),
            PackStage::Finishing => PackStageView::Finishing,
            PackStage::Flushing => PackStageView::Flushing,
            PackStage::Finished(Ok(())) => PackStageView::Finished(Ok(())),
            PackStage::Finished(Err(error)) => PackStageView::Finished(Err(error@)),
        }
    }
}

/// Packs images, given by their paths, into an artifact.
#[derive(Debug)]
pub struct Pack {
    images: Vec<String>,
    stage: PackStage,
}

#[verifier::ext_equal]
pub struct PackView {
    pub images: Seq<Seq<char>>,
    pub stage: PackStageView,
}

impl View for Pack {
    type V = PackView;

    closed spec fn view(&self) -> PackView {
        PackView { images: text::texts(self.images@), stage: self.stage@ }
    }
}

/// Whether it is in a state it can be in.
pub open spec fn pack_stands(m: PackView) -> bool {
    match m.stage {
        PackStageView::Opening(i) => 0 <= i < m.images.len(),
        PackStageView::Measuring(i) => 0 <= i < m.images.len(),
        PackStageView::Heading(i, _, _) => 0 <= i < m.images.len(),
        PackStageView::Copying(i, _) => 0 <= i < m.images.len(),
        _ => true,
    }
}

/// What packing asks for.
pub open spec fn pack_asks(m: PackView) -> PackStepView {
    match m.stage {
        PackStageView::Marking => PackStepView::Write(
            vstd::utf8::encode_utf8(STORAGE_ARTIFACT_MAGIC@),
        ),
        PackStageView::Opening(i) => PackStepView::Open(m.images[i]),
        PackStageView::Measuring(_) => PackStepView::Measure,
        PackStageView::Heading(_, _, header) => PackStepView::Write(header),
        PackStageView::Copying(_, _) => PackStepView::Copy,
        PackStageView::Finishing => PackStepView::Finish,
        PackStageView::Flushing => PackStepView::Flush,
        PackStageView::Finished(_) => PackStepView::Nothing,
    }
}

/// The stage at which the image of a number is turned to.
pub open spec fn pack_from(images: Seq<Seq<char>>, i: int) -> PackStageView {
    if i >= images.len() {
        PackStageView::Finishing
    } else if path::file_name(images[i]) is None {
        PackStageView::Finished(
            Err(
                error::refusal(
                    render::printable(images[i]) + " is not a name an artifact can carry"@,
                ),
            ),
        )
    } else {
        PackStageView::Opening(i)
    }
}

/// The stage a length leads to.
pub open spec fn pack_measured(images: Seq<Seq<char>>, i: int, len: u64) -> PackStageView {
    let name = path::file_name(images[i])->0;
    if text::utf8_len(name) > u16::MAX {
        PackStageView::Finished(
            Err(
                error::refusal(name + " is too long to name in an artifact"@) + error::refusal(
                    "out of range integral type conversion attempted"@,
                ),
            ),
        )
    } else {
        PackStageView::Heading(i, len, artifact::entry_header(name, len as nat))
    }
}

/// What is said of an image that could not be opened or read.
pub open spec fn unread(what: Seq<char>, path: Seq<char>, why: Refusal) -> PackStageView {
    PackStageView::Finished(Err(error::refusal(what + render::printable(path)) + why))
}

/// What becomes of it once it is told what came of what it asked for. What it
/// did not ask for changes nothing.
pub open spec fn pack_after(m: PackView, event: PackEventView) -> PackView {
    let stage = match (m.stage, event) {
        (PackStageView::Marking, PackEventView::Done) => pack_from(m.images, 0),
        (PackStageView::Marking, PackEventView::Failed(why)) => PackStageView::Finished(Err(why)),
        (PackStageView::Opening(i), PackEventView::Done) => PackStageView::Measuring(i),
        (PackStageView::Opening(i), PackEventView::Failed(why)) => unread(
            "opening "@,
            m.images[i],
            why,
        ),
        (PackStageView::Measuring(i), PackEventView::Bytes(len)) => pack_measured(m.images, i, len),
        (PackStageView::Measuring(i), PackEventView::Failed(why)) => unread(
            "reading "@,
            m.images[i],
            why,
        ),
        (PackStageView::Heading(i, len, _), PackEventView::Done) => PackStageView::Copying(i, len),
        (PackStageView::Heading(_, _, _), PackEventView::Failed(why)) => PackStageView::Finished(
            Err(why),
        ),
        (PackStageView::Copying(i, len), PackEventView::Bytes(copied)) => if copied == len {
            pack_from(m.images, i + 1)
        } else {
            PackStageView::Finished(
                Err(
                    error::refusal(
                        render::printable(m.images[i])
                            + " changed size while it was being exported"@,
                    ),
                ),
            )
        },
        (PackStageView::Copying(i, _), PackEventView::Failed(why)) => unread(
            "reading "@,
            m.images[i],
            why,
        ),
        (PackStageView::Finishing, PackEventView::Done) => PackStageView::Flushing,
        (PackStageView::Finishing, PackEventView::Failed(why)) => PackStageView::Finished(
            Err(error::refusal("compressing the artifact"@) + why),
        ),
        (PackStageView::Flushing, PackEventView::Done) => PackStageView::Finished(Ok(())),
        (PackStageView::Flushing, PackEventView::Failed(why)) => PackStageView::Finished(
            Err(error::refusal("writing the artifact"@) + why),
        ),
        _ => m.stage,
    };
    PackView { stage, ..m }
}

/// Whether a stage knows the name of the image it is at.
spec fn knows_name(stage: PackStage, images: Seq<Seq<char>>) -> bool {
    match stage {
        PackStage::Opening(i, name) => path::file_name(images[i as int]) == Some(name@),
        PackStage::Measuring(i, name) => path::file_name(images[i as int]) == Some(name@),
        _ => true,
    }
}

fn turn_to(images: &Vec<String>, i: usize) -> (stage: PackStage)
    ensures
        stage@ == pack_from(text::texts(images@), i as int),
        knows_name(stage, text::texts(images@)),
{
    if i >= images.len() {
        return PackStage::Finishing;
    }
    match file_name_of(images[i].as_str()) {
        Some(name) => PackStage::Opening(i, name),
        None => {
            let mut message: String = escape_printable_path(images[i].as_str());
            message.append(" is not a name an artifact can carry");
            PackStage::Finished(Err(Error::new(message)))
        },
    }
}

fn not_read(what: &str, path: &str, why: Error) -> (stage: PackStage)
    ensures
        stage@ == unread(what@, path@, why@),
{
    let mut message: String = what.to_owned();
    message.append(escape_printable_path(path).as_str());
    PackStage::Finished(Err(why.context(message)))
}

impl Pack {
    #[verifier::type_invariant]
    closed spec fn stands(&self) -> bool {
        pack_stands(self@) && knows_name(self.stage, self@.images)
    }

    pub fn start(images: Vec<String>) -> (begun: Pack)
        ensures
            begun@ == (PackView { images: text::texts(images@), stage: PackStageView::Marking }),
    {
        Pack { images, stage: PackStage::Marking }
    }

    /// What is to be done next.
    pub fn next(&self) -> (step: PackStep)
        ensures
            step@ == pack_asks(self@),
    {
        proof {
            use_type_invariant(self);
        }
        match &self.stage {
            PackStage::Marking => {
                let mut mark: Vec<u8> = Vec::new();
                append_bytes(&mut mark, STORAGE_ARTIFACT_MAGIC.as_bytes());
                proof {
                    assert(mark@ =~= vstd::utf8::encode_utf8(STORAGE_ARTIFACT_MAGIC@));
                }
                PackStep::Write(mark)
            },
            PackStage::Opening(i, _) => PackStep::Open(self.images[*i].as_str().to_owned()),
            PackStage::Measuring(_, _) => PackStep::Measure,
            PackStage::Heading(_, _, header) => {
                let bytes: Vec<u8> = header.clone();
                proof {
                    assert(bytes@ =~= header@);
                }
                PackStep::Write(bytes)
            },
            PackStage::Copying(_, _) => PackStep::Copy,
            PackStage::Finishing => PackStep::Finish,
            PackStage::Flushing => PackStep::Flush,
            PackStage::Finished(_) => PackStep::Nothing,
        }
    }

    /// What becomes of it once it is told what came of what it asked for.
    pub fn advance(self, event: PackEvent) -> (next: Pack)
        ensures
            next@ == pack_after(self@, event@),
    {
        proof {
            use_type_invariant(&self);
            assert(self@.images.len() == self.images.len());
        }
        let images = self.images;
        let stage = match (self.stage, event) {
            (PackStage::Marking, PackEvent::Done) => turn_to(&images, 0),
            (PackStage::Marking, PackEvent::Failed(why)) => PackStage::Finished(Err(why)),
            (PackStage::Opening(i, name), PackEvent::Done) => PackStage::Measuring(i, name),
            (PackStage::Opening(i, _), PackEvent::Failed(why)) => not_read(
                "opening ",
                images[i].as_str(),
                why,
            ),
            (PackStage::Measuring(i, name), PackEvent::Bytes(len)) => match write_entry_header(
                name.as_str(),
                len,
            ) {
                Ok(header) => PackStage::Heading(i, len, header),
                Err(error) => PackStage::Finished(Err(error)),
            },
            (PackStage::Measuring(i, _), PackEvent::Failed(why)) => not_read(
                "reading ",
                images[i].as_str(),
                why,
            ),
            (PackStage::Heading(i, len, _), PackEvent::Done) => PackStage::Copying(i, len),
            (PackStage::Heading(_, _, _), PackEvent::Failed(why)) => PackStage::Finished(Err(why)),
            (PackStage::Copying(i, len), PackEvent::Bytes(copied)) => match check_exported(
                images[i].as_str(),
                copied,
                len,
            ) {
                Ok(()) => turn_to(&images, i + 1),
                Err(error) => PackStage::Finished(Err(error)),
            },
            (PackStage::Copying(i, _), PackEvent::Failed(why)) => not_read(
                "reading ",
                images[i].as_str(),
                why,
            ),
            (PackStage::Finishing, PackEvent::Done) => PackStage::Flushing,
            (PackStage::Finishing, PackEvent::Failed(why)) => PackStage::Finished(
                Err(why.context("compressing the artifact".to_owned())),
            ),
            (PackStage::Flushing, PackEvent::Done) => PackStage::Finished(Ok(())),
            (PackStage::Flushing, PackEvent::Failed(why)) => PackStage::Finished(
                Err(why.context("writing the artifact".to_owned())),
            ),
            (stage, _) => stage,
        };
        Pack { images, stage }
    }

    /// How it ended; `None` while it is under way.
    pub fn into_result(self) -> (result: Option<Result<(), Error>>)
        ensures
            match self@.stage {
                PackStageView::Finished(Ok(())) => result is Some && result->0 is Ok,
                PackStageView::Finished(Err(error)) => result is Some && result->0 is Err
                    && result->0->Err_0@ == error,
                _ => result is None,
            },
    {
        match self.stage {
            PackStage::Finished(result) => Some(result),
            _ => None,
        }
    }
}

} // verus!
