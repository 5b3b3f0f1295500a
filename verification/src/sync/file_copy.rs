//! One file of a transfer, step by step: sent to the box, or taken from it and
//! put in place only once it is whole and the box has confirmed it.

use crate::bytes::{self, take_at_most};
use crate::error::{self, Error, Refusal};
use crate::sync::exec::{
    self, FileFacts, FileTransfer, check_guest_source, check_host_source, check_still_source,
};
use crate::sync::run::{RunEvent, RunEventView};
use crate::sync::security::to_safe_mode;
use crate::text;
use vstd::prelude::*;

verus! {

/// How many bytes go at a time.
pub const FILE_CHUNK: usize = 16384;

/// What a copy asks for.
#[derive(Debug)]
pub enum CopyStep {
    /// To ask the box to take a file.
    RequestWrite { rel_path: String, facts: FileFacts },
    /// To ask the box for a file.
    RequestRead { rel_path: String },
    /// To read the box's answer to that.
    AwaitReady,
    /// To open the file on the host.
    Open(String),
    /// To read on in it, so many bytes at most.
    Read(usize),
    /// To send bytes to the box.
    Send(Vec<u8>),
    /// To look what the file on the host is now.
    Measure,
    /// To tell the box that this was all.
    Commit,
    /// To make the directories above a path of the host.
    MakeParents(String),
    /// To make a file beside the one that is written, for what comes.
    Stage(String),
    /// To read from the box, so many bytes at most.
    Receive(usize),
    /// To put bytes behind those put aside.
    Append(Vec<u8>),
    /// To give what was put aside its length.
    Resize(u64),
    SetMode(u32),
    SetTimes { secs: i64, nanos: u32 },
    /// To read whether the box confirms the transfer.
    AwaitSuccess,
    /// To put what was put aside in place.
    Install(String),
    /// To throw away what was put aside.
    Discard,
    /// Nothing: the copy is over.
    Nothing,
}

#[verifier::ext_equal]
pub enum CopyStepView {
    RequestWrite { rel_path: Seq<char>, facts: FileFacts },
    RequestRead { rel_path: Seq<char> },
    AwaitReady,
    Open(Seq<char>),
    Read(nat),
    Send(Seq<u8>),
    Measure,
    Commit,
    MakeParents(Seq<char>),
    Stage(Seq<char>),
    Receive(nat),
    Append(Seq<u8>),
    Resize(u64),
    SetMode(u32),
    SetTimes { secs: i64, nanos: u32 },
    AwaitSuccess,
    Install(Seq<char>),
    Discard,
    Nothing,
}

impl View for CopyStep {
    type V = CopyStepView;

    open spec fn view(&self) -> CopyStepView {
        match self {
            CopyStep::RequestWrite { rel_path, facts } => CopyStepView::RequestWrite {
                rel_path: rel_path@,
                facts: *facts,
            },
            CopyStep::RequestRead { rel_path } => CopyStepView::RequestRead { rel_path: rel_path@ },
            CopyStep::AwaitReady => CopyStepView::AwaitReady,
            CopyStep::Open(path) => CopyStepView::Open(path@),
            CopyStep::Read(n) => CopyStepView::Read(*n as nat),
            CopyStep::Send(bytes) => CopyStepView::Send(bytes@),
            CopyStep::Measure => CopyStepView::Measure,
            CopyStep::Commit => CopyStepView::Commit,
            CopyStep::MakeParents(path) => CopyStepView::MakeParents(path@),
            CopyStep::Stage(path) => CopyStepView::Stage(path@),
            CopyStep::Receive(n) => CopyStepView::Receive(*n as nat),
            CopyStep::Append(bytes) => CopyStepView::Append(bytes@),
            CopyStep::Resize(len) => CopyStepView::Resize(*len),
            CopyStep::SetMode(mode) => CopyStepView::SetMode(*mode),
            CopyStep::SetTimes { secs, nanos } => CopyStepView::SetTimes {
                secs: *secs,
                nanos: *nanos,
            },
            CopyStep::AwaitSuccess => CopyStepView::AwaitSuccess,
            CopyStep::Install(path) => CopyStepView::Install(path@),
            CopyStep::Discard => CopyStepView::Discard,
            CopyStep::Nothing => CopyStepView::Nothing,
        }
    }
}

/// What came of it.
#[derive(Debug)]
pub enum CopyEvent {
    /// It was done, or the box answered that it is ready or that it succeeded.
    Done,
    /// The box is ready to send a file, and says what it is.
    Announced(FileFacts),
    /// What was read; nothing where there is no more.
    Chunk(Vec<u8>),
    /// Nothing was read, and it can be tried again.
    Interrupted,
    /// The time is up.
    Late,
    /// How large the file is now, and whether it has the time it had.
    Measured { size_after: u64, is_same_time: bool },
    /// The box answered otherwise, as it shows.
    Other(String),
    Failed(Error),
}

#[verifier::ext_equal]
pub enum CopyEventView {
    Done,
    Announced(FileFacts),
    Chunk(Seq<u8>),
    Interrupted,
    Late,
    Measured { size_after: u64, is_same_time: bool },
    Other(Seq<char>),
    Failed(Refusal),
}

impl View for CopyEvent {
    type V = CopyEventView;

    open spec fn view(&self) -> CopyEventView {
        match self {
            CopyEvent::Done => CopyEventView::Done,
            CopyEvent::Announced(facts) => CopyEventView::Announced(*facts),
            CopyEvent::Chunk(bytes) => CopyEventView::Chunk(bytes@),
            CopyEvent::Interrupted => CopyEventView::Interrupted,
            CopyEvent::Late => CopyEventView::Late,
            CopyEvent::Measured { size_after, is_same_time } => CopyEventView::Measured {
                size_after: *size_after,
                is_same_time: *is_same_time,
            },
            CopyEvent::Other(got) => CopyEventView::Other(got@),
            CopyEvent::Failed(error) => CopyEventView::Failed(error@),
        }
    }
}

/// A failure, as a run is told of it.
pub open spec fn failed(why: Refusal) -> RunEventView {
    RunEventView::Failed(why)
}

/// A failure with what was attempted on a path.
pub open spec fn failed_at(what: Seq<char>, path: Seq<char>, why: Refusal) -> RunEventView {
    RunEventView::Failed(error::refusal(what + path) + why)
}

fn fail_at(what: &str, path: &str, why: Error) -> (end: RunEvent)
    ensures
        end@ == failed_at(what@, path@, why@),
{
    let mut message: String = what.to_owned();
    message.append(path);
    RunEvent::Failed(why.context(message))
}

/// That the time is up.
pub open spec fn ran_late() -> RunEventView {
    RunEventView::Failed(error::refusal("file transfer ran past data transfer limit"@))
}

fn fail_late() -> (end: RunEvent)
    ensures
        end@ == ran_late(),
{
    RunEvent::Failed(crate::error::refuse("file transfer ran past data transfer limit"))
}

/// How many bytes go next of a file of which so many have gone.
pub open spec fn copy_wants(size: u64, done: u64) -> nat {
    if size - done < FILE_CHUNK {
        (size - done) as nat
    } else {
        FILE_CHUNK as nat
    }
}

/// How far a file that is sent has come: how many bytes have gone, and which go
/// now.
#[derive(Debug)]
enum SendStage {
    Requesting,
    Awaiting,
    Opening,
    Reading(FileTransfer),
    Sending(FileTransfer, Vec<u8>),
    Measuring,
    Committing,
    Confirming,
    Over(RunEvent),
}

#[verifier::ext_equal]
pub enum SendStageView {
    Requesting,
    Awaiting,
    Opening,
    Reading(u64),
    Sending(u64, Seq<u8>),
    Measuring,
    Committing,
    Confirming,
    Over(RunEventView),
}

impl View for SendStage {
    type V = SendStageView;

    closed spec fn view(&self) -> SendStageView {
        match self {
            SendStage::Requesting => SendStageView::Requesting,
            SendStage::Awaiting => SendStageView::Awaiting,
            SendStage::Opening => SendStageView::Opening,
            SendStage::Reading(transfer) => SendStageView::Reading(transfer.done()),
            SendStage::Sending(transfer, chunk) => SendStageView::Sending(transfer.done(), chunk@),
            SendStage::Measuring => SendStageView::Measuring,
            SendStage::Committing => SendStageView::Committing,
            SendStage::Confirming => SendStageView::Confirming,
            SendStage::Over(end) => SendStageView::Over(end@),
        }
    }
}

/// Sends a file of the host to the box.
#[derive(Debug)]
pub struct FileUpload {
    host_path: String,
    rel_path: String,
    facts: FileFacts,
    stage: SendStage,
}

#[verifier::ext_equal]
pub struct FileUploadView {
    pub host_path: Seq<char>,
    pub rel_path: Seq<char>,
    pub facts: FileFacts,
    pub stage: SendStageView,
}

impl View for FileUpload {
    type V = FileUploadView;

    closed spec fn view(&self) -> FileUploadView {
        FileUploadView {
            host_path: self.host_path@,
            rel_path: self.rel_path@,
            facts: self.facts,
            stage: self.stage@,
        }
    }
}

pub open spec fn upload_stands(m: FileUploadView) -> bool {
    match m.stage {
        SendStageView::Reading(done) => done < m.facts.size,
        SendStageView::Sending(done, chunk) => 0 < chunk.len() <= copy_wants(m.facts.size, done)
            && done < m.facts.size,
        _ => true,
    }
}

/// What sending a file asks for.
pub open spec fn upload_asks(m: FileUploadView) -> CopyStepView {
    match m.stage {
        SendStageView::Requesting => CopyStepView::RequestWrite {
            rel_path: m.rel_path,
            facts: m.facts,
        },
        SendStageView::Awaiting => CopyStepView::AwaitReady,
        SendStageView::Opening => CopyStepView::Open(m.host_path),
        SendStageView::Reading(done) => CopyStepView::Read(copy_wants(m.facts.size, done)),
        SendStageView::Sending(_, chunk) => CopyStepView::Send(chunk),
        SendStageView::Measuring => CopyStepView::Measure,
        SendStageView::Committing => CopyStepView::Commit,
        SendStageView::Confirming => CopyStepView::AwaitSuccess,
        SendStageView::Over(_) => CopyStepView::Nothing,
    }
}

/// The stage once so many bytes have gone.
pub open spec fn upload_gone(size: u64, done: u64) -> SendStageView {
    if done == size {
        SendStageView::Measuring
    } else {
        SendStageView::Reading(done)
    }
}

/// What is said of a file that ended too soon.
pub open spec fn shrank(path: Seq<char>, done: u64, size: u64) -> Refusal {
    error::refusal(
        path + " shrank while being transferred (read "@ + text::decimal(done as nat) + " of "@
            + text::decimal(size as nat) + " bytes)"@,
    )
}

/// What becomes of it once it is told what came of what it asked for. What it
/// did not ask for changes nothing.
pub open spec fn upload_after(m: FileUploadView, event: CopyEventView) -> FileUploadView {
    let stage = match (m.stage, event) {
        (SendStageView::Over(_), _) => m.stage,
        (SendStageView::Opening, CopyEventView::Failed(why)) => SendStageView::Over(
            failed_at("opening "@, m.host_path, why),
        ),
        (SendStageView::Reading(_), CopyEventView::Failed(why)) => SendStageView::Over(
            failed_at("reading "@, m.host_path, why),
        ),
        (_, CopyEventView::Failed(why)) => SendStageView::Over(failed(why)),
        (SendStageView::Requesting, CopyEventView::Done) => SendStageView::Awaiting,
        (SendStageView::Awaiting, CopyEventView::Done) => SendStageView::Opening,
        (SendStageView::Awaiting, CopyEventView::Other(got)) => SendStageView::Over(
            RunEventView::NotReady(got),
        ),
        (SendStageView::Opening, CopyEventView::Done) => upload_gone(m.facts.size, 0),
        (SendStageView::Reading(_), CopyEventView::Late) => SendStageView::Over(ran_late()),
        (SendStageView::Reading(done), CopyEventView::Chunk(chunk)) => if chunk.len() == 0 {
            SendStageView::Over(failed(shrank(m.host_path, done, m.facts.size)))
        } else {
            SendStageView::Sending(done, bytes::at_most(chunk, copy_wants(m.facts.size, done)))
        },
        (SendStageView::Sending(done, chunk), CopyEventView::Done) => upload_gone(
            m.facts.size,
            (done + chunk.len()) as u64,
        ),
        (
            SendStageView::Measuring,
            CopyEventView::Measured { size_after, is_same_time },
        ) => if size_after == m.facts.size && is_same_time {
            SendStageView::Committing
        } else {
            SendStageView::Over(
                failed(
                    error::refusal("source changed while transferring; retry with a quiet source"@),
                ),
            )
        },
        (SendStageView::Committing, CopyEventView::Done) => SendStageView::Confirming,
        (SendStageView::Confirming, CopyEventView::Done) => SendStageView::Over(RunEventView::Done),
        (SendStageView::Confirming, CopyEventView::Other(got)) => SendStageView::Over(
            RunEventView::Unconfirmed(got),
        ),
        _ => m.stage,
    };
    FileUploadView { stage, ..m }
}

fn gone(transfer: FileTransfer) -> (stage: SendStage)
    ensures
        stage@ == upload_gone(transfer.size(), transfer.done()),
        sends_all(stage, transfer.size()),
        upload_gone(transfer.size(), transfer.done()) is Reading ==> transfer.done()
            < transfer.size(),
{
    if transfer.is_complete() {
        SendStage::Measuring
    } else {
        SendStage::Reading(transfer)
    }
}

/// Whether what is counted is the file that is sent.
spec fn sends_all(stage: SendStage, size: u64) -> bool {
    match stage {
        SendStage::Reading(transfer) => transfer.size() == size,
        SendStage::Sending(transfer, _) => transfer.size() == size,
        _ => true,
    }
}

impl FileUpload {
    #[verifier::type_invariant]
    closed spec fn stands(&self) -> bool {
        upload_stands(self@) && sends_all(self.stage, self.facts.size)
    }

    /// Begins to send a file; one that is not what was planned for, or too
    /// large, is refused at once.
    pub fn start(
        host_path: &str,
        rel_path: &str,
        is_file: bool,
        found: FileFacts,
        planned: FileFacts,
        max_file_bytes: u64,
    ) -> (begun: FileUpload)
        ensures
            begun@ == (FileUploadView {
                host_path: host_path@,
                rel_path: rel_path@,
                facts: found,
                stage: match exec::host_source_verdict(
                    host_path@,
                    is_file,
                    found,
                    planned,
                    max_file_bytes,
                ) {
                    Ok(_) => SendStageView::Requesting,
                    Err(refused) => SendStageView::Over(failed(refused)),
                },
            }),
    {
        let stage = match check_host_source(host_path, is_file, found, planned, max_file_bytes) {
            Ok(()) => SendStage::Requesting,
            Err(error) => SendStage::Over(RunEvent::Failed(error)),
        };
        FileUpload {
            host_path: host_path.to_owned(),
            rel_path: rel_path.to_owned(),
            facts: found,
            stage,
        }
    }

    /// What is to be done next.
    pub fn next(&self) -> (step: CopyStep)
        ensures
            step@ == upload_asks(self@),
    {
        proof {
            use_type_invariant(self);
        }
        match &self.stage {
            SendStage::Requesting => CopyStep::RequestWrite {
                rel_path: self.rel_path.as_str().to_owned(),
                facts: self.facts,
            },
            SendStage::Awaiting => CopyStep::AwaitReady,
            SendStage::Opening => CopyStep::Open(self.host_path.as_str().to_owned()),
            SendStage::Reading(transfer) => CopyStep::Read(transfer.want(FILE_CHUNK)),
            SendStage::Sending(_, chunk) => {
                let bytes: Vec<u8> = chunk.clone();
                proof {
                    assert(bytes@ =~= chunk@);
                }
                CopyStep::Send(bytes)
            },
            SendStage::Measuring => CopyStep::Measure,
            SendStage::Committing => CopyStep::Commit,
            SendStage::Confirming => CopyStep::AwaitSuccess,
            SendStage::Over(_) => CopyStep::Nothing,
        }
    }

    /// What becomes of it once it is told what came of what it asked for.
    pub fn advance(self, event: CopyEvent) -> (next: FileUpload)
        ensures
            next@ == upload_after(self@, event@),
    {
        proof {
            use_type_invariant(&self);
        }
        let host_path = self.host_path;
        let facts = self.facts;
        let stage = match (self.stage, event) {
            (SendStage::Over(end), _) => SendStage::Over(end),
            (SendStage::Opening, CopyEvent::Failed(why)) => SendStage::Over(
                fail_at("opening ", host_path.as_str(), why),
            ),
            (SendStage::Reading(_), CopyEvent::Failed(why)) => SendStage::Over(
                fail_at("reading ", host_path.as_str(), why),
            ),
            (_, CopyEvent::Failed(why)) => SendStage::Over(RunEvent::Failed(why)),
            (SendStage::Requesting, CopyEvent::Done) => SendStage::Awaiting,
            (SendStage::Awaiting, CopyEvent::Done) => SendStage::Opening,
            (SendStage::Awaiting, CopyEvent::Other(got)) => SendStage::Over(
                RunEvent::NotReady(got),
            ),
            (SendStage::Opening, CopyEvent::Done) => gone(FileTransfer::new(facts.size)),
            (SendStage::Reading(_), CopyEvent::Late) => SendStage::Over(fail_late()),
            (SendStage::Reading(transfer), CopyEvent::Chunk(chunk)) => {
                let mut transfer = transfer;
                let bytes = take_at_most(chunk, transfer.want(FILE_CHUNK));
                if bytes.len() > 0 {
                    SendStage::Sending(transfer, bytes)
                } else {
                    match transfer.sent(0, host_path.as_str()) {
                        Err(error) => SendStage::Over(RunEvent::Failed(error)),
                        Ok(()) => SendStage::Reading(transfer),
                    }
                }
            },
            (SendStage::Sending(transfer, chunk), CopyEvent::Done) => {
                let mut transfer = transfer;
                match transfer.sent(chunk.len(), host_path.as_str()) {
                    Err(error) => SendStage::Over(RunEvent::Failed(error)),
                    Ok(()) => gone(transfer),
                }
            },
            (
                SendStage::Measuring,
                CopyEvent::Measured { size_after, is_same_time },
            ) => match check_still_source(facts.size, size_after, is_same_time) {
                Ok(()) => SendStage::Committing,
                Err(error) => SendStage::Over(RunEvent::Failed(error)),
            },
            (SendStage::Committing, CopyEvent::Done) => SendStage::Confirming,
            (SendStage::Confirming, CopyEvent::Done) => SendStage::Over(RunEvent::Done),
            (SendStage::Confirming, CopyEvent::Other(got)) => SendStage::Over(
                RunEvent::Unconfirmed(got),
            ),
            (stage, _) => stage,
        };
        FileUpload { host_path, rel_path: self.rel_path, facts, stage }
    }

    /// What a run is told of it; `None` while it is under way.
    pub fn into_event(self) -> (end: Option<RunEvent>)
        ensures
            match self@.stage {
                SendStageView::Over(expected) => end is Some && end->0@ == expected,
                _ => end is None,
            },
    {
        match self.stage {
            SendStage::Over(end) => Some(end),
            _ => None,
        }
    }
}

/// How far a file that is fetched has come, and what the box announced of it.
#[derive(Debug)]
enum ReceiveStage {
    Requesting,
    Awaiting,
    MakingParents(FileFacts),
    Staging(FileFacts),
    Copying(FileFacts, FileTransfer),
    Appending(FileFacts, FileTransfer, Vec<u8>),
    Resizing(FileFacts),
    SettingMode(FileFacts),
    Confirming(FileFacts),
    SettingTimes(FileFacts),
    Installing(FileFacts),
    Discarding(RunEvent),
    Over(RunEvent),
}

#[verifier::ext_equal]
pub enum ReceiveStageView {
    Requesting,
    Awaiting,
    MakingParents(FileFacts),
    Staging(FileFacts),
    Copying(FileFacts, u64),
    Appending(FileFacts, u64, Seq<u8>),
    Resizing(FileFacts),
    SettingMode(FileFacts),
    Confirming(FileFacts),
    SettingTimes(FileFacts),
    Installing(FileFacts),
    Discarding(RunEventView),
    Over(RunEventView),
}

impl View for ReceiveStage {
    type V = ReceiveStageView;

    closed spec fn view(&self) -> ReceiveStageView {
        match self {
            ReceiveStage::Requesting => ReceiveStageView::Requesting,
            ReceiveStage::Awaiting => ReceiveStageView::Awaiting,
            ReceiveStage::MakingParents(facts) => ReceiveStageView::MakingParents(*facts),
            ReceiveStage::Staging(facts) => ReceiveStageView::Staging(*facts),
            ReceiveStage::Copying(facts, transfer) => ReceiveStageView::Copying(
                *facts,
                transfer.done(),
            ),
            ReceiveStage::Appending(facts, transfer, chunk) => ReceiveStageView::Appending(
                *facts,
                transfer.done(),
                chunk@,
            ),
            ReceiveStage::Resizing(facts) => ReceiveStageView::Resizing(*facts),
            ReceiveStage::SettingMode(facts) => ReceiveStageView::SettingMode(*facts),
            ReceiveStage::Confirming(facts) => ReceiveStageView::Confirming(*facts),
            ReceiveStage::SettingTimes(facts) => ReceiveStageView::SettingTimes(*facts),
            ReceiveStage::Installing(facts) => ReceiveStageView::Installing(*facts),
            ReceiveStage::Discarding(end) => ReceiveStageView::Discarding(end@),
            ReceiveStage::Over(end) => ReceiveStageView::Over(end@),
        }
    }
}

/// Fetches a file of the box to the host.
#[derive(Debug)]
pub struct FileDownload {
    rel_path: String,
    host_path: String,
    planned: FileFacts,
    max_file_bytes: u64,
    stage: ReceiveStage,
}

#[verifier::ext_equal]
pub struct FileDownloadView {
    pub rel_path: Seq<char>,
    pub host_path: Seq<char>,
    pub planned: FileFacts,
    pub max_file_bytes: u64,
    pub stage: ReceiveStageView,
}

impl View for FileDownload {
    type V = FileDownloadView;

    closed spec fn view(&self) -> FileDownloadView {
        FileDownloadView {
            rel_path: self.rel_path@,
            host_path: self.host_path@,
            planned: self.planned,
            max_file_bytes: self.max_file_bytes,
            stage: self.stage@,
        }
    }
}

pub open spec fn download_stands(m: FileDownloadView) -> bool {
    match m.stage {
        ReceiveStageView::Copying(facts, done) => done < facts.size,
        ReceiveStageView::Appending(facts, done, chunk) => 0 < chunk.len() <= copy_wants(
            facts.size,
            done,
        ) && done < facts.size,
        _ => true,
    }
}

/// What fetching a file asks for.
pub open spec fn download_asks(m: FileDownloadView) -> CopyStepView {
    match m.stage {
        ReceiveStageView::Requesting => CopyStepView::RequestRead { rel_path: m.rel_path },
        ReceiveStageView::Awaiting => CopyStepView::AwaitReady,
        ReceiveStageView::MakingParents(_) => CopyStepView::MakeParents(m.host_path),
        ReceiveStageView::Staging(_) => CopyStepView::Stage(m.host_path),
        ReceiveStageView::Copying(facts, done) => CopyStepView::Receive(
            copy_wants(facts.size, done),
        ),
        ReceiveStageView::Appending(_, _, chunk) => CopyStepView::Append(chunk),
        ReceiveStageView::Resizing(facts) => CopyStepView::Resize(facts.size),
        ReceiveStageView::SettingMode(facts) => CopyStepView::SetMode(facts.mode & 0o755),
        ReceiveStageView::Confirming(_) => CopyStepView::AwaitSuccess,
        ReceiveStageView::SettingTimes(facts) => CopyStepView::SetTimes {
            secs: facts.mtime_secs,
            nanos: facts.mtime_nanos,
        },
        ReceiveStageView::Installing(_) => CopyStepView::Install(m.host_path),
        ReceiveStageView::Discarding(_) => CopyStepView::Discard,
        ReceiveStageView::Over(_) => CopyStepView::Nothing,
    }
}

/// The stage once so many bytes have come.
pub open spec fn download_come(facts: FileFacts, done: u64) -> ReceiveStageView {
    if done == facts.size {
        ReceiveStageView::Resizing(facts)
    } else {
        ReceiveStageView::Copying(facts, done)
    }
}

/// What is said of a file of which too little came.
pub open spec fn ended_early(rel_path: Seq<char>, done: u64, size: u64) -> Refusal {
    error::refusal(
        "transfer of "@ + rel_path + " ended after "@ + text::decimal(done as nat) + " of "@
            + text::decimal(size as nat) + " promised bytes"@,
    )
}

/// What becomes of it once it is told what came of what it asked for. What it
/// did not ask for changes nothing.
pub open spec fn download_after(m: FileDownloadView, event: CopyEventView) -> FileDownloadView {
    let stage = match (m.stage, event) {
        (ReceiveStageView::Over(_), _) => m.stage,
        (ReceiveStageView::Requesting, CopyEventView::Done) => ReceiveStageView::Awaiting,
        (ReceiveStageView::Requesting, CopyEventView::Failed(why)) => ReceiveStageView::Over(
            failed(why),
        ),
        (
            ReceiveStageView::Awaiting,
            CopyEventView::Announced(facts),
        ) => match exec::guest_source_verdict(facts, m.planned, m.max_file_bytes) {
            Ok(_) => ReceiveStageView::MakingParents(facts),
            Err(refused) => ReceiveStageView::Over(failed(refused)),
        },
        (ReceiveStageView::Awaiting, CopyEventView::Other(got)) => ReceiveStageView::Over(
            RunEventView::NotReady(got),
        ),
        (ReceiveStageView::Awaiting, CopyEventView::Failed(why)) => ReceiveStageView::Over(
            failed(why),
        ),
        (ReceiveStageView::MakingParents(facts), CopyEventView::Done) => ReceiveStageView::Staging(
            facts,
        ),
        (ReceiveStageView::MakingParents(_), CopyEventView::Failed(why)) => ReceiveStageView::Over(
            failed(why),
        ),
        (ReceiveStageView::Staging(facts), CopyEventView::Done) => download_come(facts, 0),
        (ReceiveStageView::Staging(_), CopyEventView::Failed(why)) => ReceiveStageView::Over(
            failed(why),
        ),
        (ReceiveStageView::Copying(_, _), CopyEventView::Late) => ReceiveStageView::Discarding(
            ran_late(),
        ),
        (ReceiveStageView::Copying(facts, done), CopyEventView::Chunk(chunk)) => if chunk.len()
            == 0 {
            ReceiveStageView::Discarding(failed(ended_early(m.rel_path, done, facts.size)))
        } else {
            ReceiveStageView::Appending(facts, done, bytes::at_most(chunk, copy_wants(facts.size, done)))
        },
        (ReceiveStageView::Appending(facts, done, chunk), CopyEventView::Done) => download_come(
            facts,
            (done + chunk.len()) as u64,
        ),
        (ReceiveStageView::Appending(_, _, _), CopyEventView::Failed(why)) => ReceiveStageView::Discarding(
            failed_at("writing to "@, m.host_path, why),
        ),
        (ReceiveStageView::Resizing(facts), CopyEventView::Done) => ReceiveStageView::SettingMode(
            facts,
        ),
        (ReceiveStageView::Resizing(_), CopyEventView::Failed(why)) => ReceiveStageView::Discarding(
            failed_at("sizing "@, m.host_path, why),
        ),
        (ReceiveStageView::SettingMode(facts), CopyEventView::Done) => ReceiveStageView::Confirming(
            facts,
        ),
        (ReceiveStageView::SettingMode(_), CopyEventView::Failed(why)) => ReceiveStageView::Discarding(
            failed_at("setting permissions on "@, m.host_path, why),
        ),
        (ReceiveStageView::Confirming(facts), CopyEventView::Done) => ReceiveStageView::SettingTimes(
            facts,
        ),
        (ReceiveStageView::Confirming(_), CopyEventView::Other(got)) => ReceiveStageView::Discarding(
            RunEventView::Unconfirmed(got),
        ),
        (ReceiveStageView::SettingTimes(facts), CopyEventView::Done) => ReceiveStageView::Installing(
            facts,
        ),
        (ReceiveStageView::Installing(_), CopyEventView::Done) => ReceiveStageView::Over(
            RunEventView::Done,
        ),
        (ReceiveStageView::Discarding(end), CopyEventView::Done) => ReceiveStageView::Over(end),
        (ReceiveStageView::Discarding(end), CopyEventView::Failed(_)) => ReceiveStageView::Over(end),
        (_, CopyEventView::Failed(why)) => ReceiveStageView::Discarding(failed(why)),
        _ => m.stage,
    };
    FileDownloadView { stage, ..m }
}

/// Whether what is counted is the file that comes.
spec fn counts_all(stage: ReceiveStage) -> bool {
    match stage {
        ReceiveStage::Copying(facts, transfer) => transfer.size() == facts.size,
        ReceiveStage::Appending(facts, transfer, _) => transfer.size() == facts.size,
        _ => true,
    }
}

fn come(facts: FileFacts, transfer: FileTransfer) -> (stage: ReceiveStage)
    requires
        transfer.size() == facts.size,
    ensures
        stage@ == download_come(facts, transfer.done()),
        counts_all(stage),
        stage@ is Copying ==> transfer.done() < facts.size,
{
    if transfer.is_complete() {
        ReceiveStage::Resizing(facts)
    } else {
        ReceiveStage::Copying(facts, transfer)
    }
}

impl FileDownload {
    #[verifier::type_invariant]
    closed spec fn stands(&self) -> bool {
        download_stands(self@) && counts_all(self.stage)
    }

    /// Begins to fetch a file to a path of the host.
    pub fn start(rel_path: &str, host_path: &str, planned: FileFacts, max_file_bytes: u64) -> (
        begun: FileDownload)
        ensures
            begun@ == (FileDownloadView {
                rel_path: rel_path@,
                host_path: host_path@,
                planned,
                max_file_bytes,
                stage: ReceiveStageView::Requesting,
            }),
    {
        FileDownload {
            rel_path: rel_path.to_owned(),
            host_path: host_path.to_owned(),
            planned,
            max_file_bytes,
            stage: ReceiveStage::Requesting,
        }
    }

    /// What is to be done next.
    pub fn next(&self) -> (step: CopyStep)
        ensures
            step@ == download_asks(self@),
    {
        proof {
            use_type_invariant(self);
        }
        match &self.stage {
            ReceiveStage::Requesting => CopyStep::RequestRead {
                rel_path: self.rel_path.as_str().to_owned(),
            },
            ReceiveStage::Awaiting => CopyStep::AwaitReady,
            ReceiveStage::MakingParents(_) => CopyStep::MakeParents(
                self.host_path.as_str().to_owned(),
            ),
            ReceiveStage::Staging(_) => CopyStep::Stage(self.host_path.as_str().to_owned()),
            ReceiveStage::Copying(_, transfer) => CopyStep::Receive(transfer.want(FILE_CHUNK)),
            ReceiveStage::Appending(_, _, chunk) => {
                let bytes: Vec<u8> = chunk.clone();
                proof {
                    assert(bytes@ =~= chunk@);
                }
                CopyStep::Append(bytes)
            },
            ReceiveStage::Resizing(facts) => CopyStep::Resize(facts.size),
            ReceiveStage::SettingMode(facts) => CopyStep::SetMode(to_safe_mode(facts.mode)),
            ReceiveStage::Confirming(_) => CopyStep::AwaitSuccess,
            ReceiveStage::SettingTimes(facts) => CopyStep::SetTimes {
                secs: facts.mtime_secs,
                nanos: facts.mtime_nanos,
            },
            ReceiveStage::Installing(_) => CopyStep::Install(self.host_path.as_str().to_owned()),
            ReceiveStage::Discarding(_) => CopyStep::Discard,
            ReceiveStage::Over(_) => CopyStep::Nothing,
        }
    }

    /// What becomes of it once it is told what came of what it asked for.
    pub fn advance(self, event: CopyEvent) -> (next: FileDownload)
        ensures
            next@ == download_after(self@, event@),
    {
        proof {
            use_type_invariant(&self);
        }
        let rel_path = self.rel_path;
        let host_path = self.host_path;
        let planned = self.planned;
        let max_file_bytes = self.max_file_bytes;
        let stage = match (self.stage, event) {
            (ReceiveStage::Over(end), _) => ReceiveStage::Over(end),
            (ReceiveStage::Requesting, CopyEvent::Done) => ReceiveStage::Awaiting,
            (ReceiveStage::Requesting, CopyEvent::Failed(why)) => ReceiveStage::Over(
                RunEvent::Failed(why),
            ),
            (ReceiveStage::Awaiting, CopyEvent::Announced(facts)) => match check_guest_source(
                facts,
                planned,
                max_file_bytes,
            ) {
                Ok(()) => ReceiveStage::MakingParents(facts),
                Err(error) => ReceiveStage::Over(RunEvent::Failed(error)),
            },
            (ReceiveStage::Awaiting, CopyEvent::Other(got)) => ReceiveStage::Over(
                RunEvent::NotReady(got),
            ),
            (ReceiveStage::Awaiting, CopyEvent::Failed(why)) => ReceiveStage::Over(
                RunEvent::Failed(why),
            ),
            (ReceiveStage::MakingParents(facts), CopyEvent::Done) => ReceiveStage::Staging(facts),
            (ReceiveStage::MakingParents(_), CopyEvent::Failed(why)) => ReceiveStage::Over(
                RunEvent::Failed(why),
            ),
            (ReceiveStage::Staging(facts), CopyEvent::Done) => come(
                facts,
                FileTransfer::new(facts.size),
            ),
            (ReceiveStage::Staging(_), CopyEvent::Failed(why)) => ReceiveStage::Over(
                RunEvent::Failed(why),
            ),
            (ReceiveStage::Copying(_, _), CopyEvent::Late) => ReceiveStage::Discarding(fail_late()),
            (ReceiveStage::Copying(facts, transfer), CopyEvent::Chunk(chunk)) => {
                let mut transfer = transfer;
                let bytes = take_at_most(chunk, transfer.want(FILE_CHUNK));
                if bytes.len() > 0 {
                    ReceiveStage::Appending(facts, transfer, bytes)
                } else {
                    match transfer.received(0, rel_path.as_str()) {
                        Err(error) => ReceiveStage::Discarding(RunEvent::Failed(error)),
                        Ok(()) => ReceiveStage::Copying(facts, transfer),
                    }
                }
            },
            (ReceiveStage::Appending(facts, transfer, chunk), CopyEvent::Done) => {
                let mut transfer = transfer;
                match transfer.received(chunk.len(), rel_path.as_str()) {
                    Err(error) => ReceiveStage::Discarding(RunEvent::Failed(error)),
                    Ok(()) => come(facts, transfer),
                }
            },
            (ReceiveStage::Appending(_, _, _), CopyEvent::Failed(why)) => ReceiveStage::Discarding(
                fail_at("writing to ", host_path.as_str(), why),
            ),
            (ReceiveStage::Resizing(facts), CopyEvent::Done) => ReceiveStage::SettingMode(facts),
            (ReceiveStage::Resizing(_), CopyEvent::Failed(why)) => ReceiveStage::Discarding(
                fail_at("sizing ", host_path.as_str(), why),
            ),
            (ReceiveStage::SettingMode(facts), CopyEvent::Done) => ReceiveStage::Confirming(facts),
            (ReceiveStage::SettingMode(_), CopyEvent::Failed(why)) => ReceiveStage::Discarding(
                fail_at("setting permissions on ", host_path.as_str(), why),
            ),
            (ReceiveStage::Confirming(facts), CopyEvent::Done) => ReceiveStage::SettingTimes(facts),
            (ReceiveStage::Confirming(_), CopyEvent::Other(got)) => ReceiveStage::Discarding(
                RunEvent::Unconfirmed(got),
            ),
            (ReceiveStage::SettingTimes(facts), CopyEvent::Done) => ReceiveStage::Installing(facts),
            (ReceiveStage::Installing(_), CopyEvent::Done) => ReceiveStage::Over(RunEvent::Done),
            (ReceiveStage::Discarding(end), CopyEvent::Done) => ReceiveStage::Over(end),
            (ReceiveStage::Discarding(end), CopyEvent::Failed(_)) => ReceiveStage::Over(end),
            (_, CopyEvent::Failed(why)) => ReceiveStage::Discarding(RunEvent::Failed(why)),
            (stage, _) => stage,
        };
        FileDownload { rel_path, host_path, planned, max_file_bytes, stage }
    }

    /// What a run is told of it; `None` while it is under way.
    pub fn into_event(self) -> (end: Option<RunEvent>)
        ensures
            match self@.stage {
                ReceiveStageView::Over(expected) => end is Some && end->0@ == expected,
                _ => end is None,
            },
    {
        match self.stage {
            ReceiveStage::Over(end) => Some(end),
            _ => None,
        }
    }
}

/// The bytes of a file that were read, and those that were sent to the box.
#[verifier::ext_equal]
pub struct Sent {
    pub read: Seq<u8>,
    pub sent: Seq<u8>,
    /// The file was seen to be what it was after all of it was read.
    pub unchanged: bool,
    /// The box said that it has the file.
    pub confirmed: bool,
}

/// What has been read and sent once a step was answered.
pub open spec fn sent_after(before: Sent, step: CopyStepView, event: CopyEventView, size: u64) -> Sent {
    match (step, event) {
        (CopyStepView::Read(most), CopyEventView::Chunk(chunk)) => Sent {
            read: before.read + bytes::at_most(chunk, most),
            ..before
        },
        (CopyStepView::Send(bytes), CopyEventView::Done) => Sent {
            sent: before.sent + bytes,
            ..before
        },
        (
            CopyStepView::Measure,
            CopyEventView::Measured { size_after, is_same_time },
        ) => Sent { unchanged: size_after == size && is_same_time, ..before },
        (CopyStepView::AwaitSuccess, CopyEventView::Done) => Sent { confirmed: true, ..before },
        _ => before,
    }
}

/// What holds while a file is sent, by how far it has come.
pub open spec fn upload_holds(m: FileUploadView, world: Sent) -> bool {
    let size = m.facts.size;
    match m.stage {
        SendStageView::Requesting | SendStageView::Awaiting | SendStageView::Opening => world.read.len()
            == 0 && world.sent.len() == 0,
        SendStageView::Reading(done) => world.sent == world.read && world.sent.len() == done,
        SendStageView::Sending(done, chunk) => world.read == world.sent + chunk && world.sent.len()
            == done,
        SendStageView::Measuring => world.sent == world.read && world.sent.len() == size,
        SendStageView::Committing | SendStageView::Confirming => world.sent == world.read
            && world.sent.len() == size && world.unchanged,
        SendStageView::Over(RunEventView::Done) => world.sent == world.read && world.sent.len()
            == size && world.unchanged && world.confirmed,
        SendStageView::Over(_) => true,
    }
}

/// A file counts as sent only once every byte of it was read and sent, in
/// order, the file was seen not to have changed meanwhile, and the box has
/// confirmed it; the box is not told that this was all before that.
pub proof fn files_are_sent_whole(m: FileUploadView, event: CopyEventView, world: Sent)
    requires
        upload_stands(m),
        upload_holds(m, world),
    ensures
        upload_stands(upload_after(m, event)),
        upload_holds(
            upload_after(m, event),
            sent_after(world, upload_asks(m), event, m.facts.size),
        ),
{
    let after = sent_after(world, upload_asks(m), event, m.facts.size);
    match m.stage {
        SendStageView::Opening => {
            assert(world.read =~= Seq::empty() && world.sent =~= Seq::empty());
        },
        SendStageView::Reading(done) => {
            if let CopyEventView::Chunk(chunk) = event {
                if chunk.len() > 0 {
                    assert(after.read == after.sent + bytes::at_most(chunk, copy_wants(m.facts.size, done)));
                }
            }
        },
        SendStageView::Sending(_, _) => {
            assert(event is Done ==> after.sent == after.read);
        },
        _ => {},
    }
}

/// The file on the host that is written, what was put aside for it, and whether
/// the box has confirmed the transfer.
#[verifier::ext_equal]
pub struct Received {
    pub file: Option<Seq<u8>>,
    pub staged: Option<Seq<u8>>,
    pub confirmed: bool,
}

/// The host once a step was done, or tried in vain: what was put aside may then
/// be anything, but nothing else was touched.
pub open spec fn host_follows(
    before: Received,
    step: CopyStepView,
    event: CopyEventView,
    after: Received,
) -> bool {
    if event is Done {
        match step {
            CopyStepView::Stage(_) => after == (Received { staged: Some(Seq::empty()), ..before }),
            CopyStepView::Append(chunk) => after == (Received {
                staged: Some(before.staged->0 + chunk),
                ..before
            }),
            CopyStepView::Resize(size) => after.file == before.file && after.confirmed
                == before.confirmed && (before.staged->0.len() == size ==> after == before),
            CopyStepView::AwaitSuccess => after == (Received { confirmed: true, ..before }),
            CopyStepView::Install(_) => after == (Received {
                file: before.staged,
                staged: None,
                ..before
            }),
            CopyStepView::Discard => after == (Received { staged: None, ..before }),
            _ => after == before,
        }
    } else if event is Failed {
        after.file == before.file && after.confirmed == before.confirmed
    } else {
        after == before
    }
}

/// The bytes that came, once more of them were put aside.
pub open spec fn bytes_after(came: Seq<u8>, step: CopyStepView, event: CopyEventView) -> Seq<u8> {
    match step {
        CopyStepView::Append(chunk) => if event is Done {
            came + chunk
        } else {
            came
        },
        _ => came,
    }
}

/// What holds while a file is fetched, by how far it has come.
pub open spec fn download_holds(
    m: FileDownloadView,
    host: Received,
    first: Option<Seq<u8>>,
    came: Seq<u8>,
) -> bool {
    let size = m.planned.size;
    let aside = host.file == first && host.staged == Some(came);
    match m.stage {
        ReceiveStageView::Requesting | ReceiveStageView::Awaiting => host.file == first
            && came.len() == 0,
        ReceiveStageView::MakingParents(facts) => host.file == first && came.len() == 0
            && facts.size == size,
        ReceiveStageView::Staging(facts) => host.file == first && came.len() == 0 && facts.size
            == size,
        ReceiveStageView::Copying(facts, done) => aside && came.len() == done && facts.size == size,
        ReceiveStageView::Appending(facts, done, _) => aside && came.len() == done && facts.size
            == size,
        ReceiveStageView::Resizing(facts) => aside && came.len() == size && facts.size == size,
        ReceiveStageView::SettingMode(_) | ReceiveStageView::Confirming(_) => aside && came.len()
            == size,
        ReceiveStageView::SettingTimes(_) | ReceiveStageView::Installing(_) => aside && came.len()
            == size && host.confirmed,
        ReceiveStageView::Over(RunEventView::Done) => host.file == Some(came) && came.len() == size
            && host.confirmed,
        ReceiveStageView::Discarding(end) => host.file == first && !(end is Done),
        ReceiveStageView::Over(_) => host.file == first,
    }
}

/// A file on the host is replaced only by a whole one that the box has
/// confirmed: whatever comes of each step, it is as it was until as many bytes
/// as were planned have come and the box has said so; a fetch that fails leaves
/// it.
pub proof fn files_are_replaced_whole(
    m: FileDownloadView,
    event: CopyEventView,
    before: Received,
    after: Received,
    first: Option<Seq<u8>>,
    came: Seq<u8>,
)
    requires
        download_stands(m),
        download_holds(m, before, first, came),
        host_follows(before, download_asks(m), event, after),
    ensures
        download_stands(download_after(m, event)),
        download_holds(
            download_after(m, event),
            after,
            first,
            bytes_after(came, download_asks(m), event),
        ),
{
    if m.stage is Staging {
        assert(came =~= Seq::empty());
    }
}

} // verus!
