//! Fetching a file out of a box, step by step: what comes is put aside, and
//! takes its place on the host only once all that was promised is there.

use crate::bytes::{self, take_at_most};
use crate::error::{self, Error, Refusal};
use crate::host::HostOs;
use crate::put_get::{
    self, BoundedCopy, CopyView, DestinationFacts, ReplyRead, check_destination, check_get,
    check_received, choose_destination, refuse_late, report,
};
use crate::sync::security::to_safe_mode;
use vstd::prelude::*;

verus! {

/// What a fetch asks for.
#[derive(Debug)]
pub enum FetchStep {
    /// To ask the box for the file and to read its answer.
    Ask,
    /// To see whether there is a directory.
    LookAt(String),
    /// To see what lies where the file goes.
    Examine(String),
    /// To make a file beside the one that is written, for what comes.
    Stage(String),
    /// To read from the box, so many bytes at most.
    Receive(usize),
    /// To put bytes behind those put aside.
    Append(Vec<u8>),
    /// To give what was put aside its length.
    Resize(u64),
    /// To give it its mode.
    SetMode(u32),
    /// To put it in place of what is there.
    Install(String),
    /// To throw away what was put aside.
    Discard,
    /// Nothing: the fetch is over.
    Nothing,
}

#[verifier::ext_equal]
pub enum FetchStepView {
    Ask,
    LookAt(Seq<char>),
    Examine(Seq<char>),
    Stage(Seq<char>),
    Receive(nat),
    Append(Seq<u8>),
    Resize(u64),
    SetMode(u32),
    Install(Seq<char>),
    Discard,
    Nothing,
}

impl View for FetchStep {
    type V = FetchStepView;

    open spec fn view(&self) -> FetchStepView {
        match self {
            FetchStep::Ask => FetchStepView::Ask,
            FetchStep::LookAt(path) => FetchStepView::LookAt(path@),
            FetchStep::Examine(path) => FetchStepView::Examine(path@),
            FetchStep::Stage(path) => FetchStepView::Stage(path@),
            FetchStep::Receive(n) => FetchStepView::Receive(*n as nat),
            FetchStep::Append(chunk) => FetchStepView::Append(chunk@),
            FetchStep::Resize(size) => FetchStepView::Resize(*size),
            FetchStep::SetMode(mode) => FetchStepView::SetMode(*mode),
            FetchStep::Install(path) => FetchStepView::Install(path@),
            FetchStep::Discard => FetchStepView::Discard,
            FetchStep::Nothing => FetchStepView::Nothing,
        }
    }
}

/// What came of it.
#[derive(Debug)]
pub enum FetchEvent {
    Done,
    Replied(ReplyRead),
    IsDir(bool),
    Found(DestinationFacts),
    /// What was read; nothing where the box has no more.
    Received(Vec<u8>),
    /// Nothing was read, and it can be tried again.
    Interrupted,
    /// The time is up.
    Late,
    Failed(Error),
}

/// What is fetched to where.
#[derive(Debug)]
struct Placing {
    mode: u32,
    size: u64,
    destination: String,
    path: String,
}

#[verifier::ext_equal]
pub struct PlacingView {
    /// The mode and the size the box promised.
    pub mode: u32,
    pub size: u64,
    /// Where the file goes, as it is called, and with its links followed.
    pub destination: Seq<char>,
    pub path: Seq<char>,
}

impl View for Placing {
    type V = PlacingView;

    closed spec fn view(&self) -> PlacingView {
        PlacingView {
            mode: self.mode,
            size: self.size,
            destination: self.destination@,
            path: self.path@,
        }
    }
}

#[derive(Debug)]
enum FetchStage {
    Asking,
    Choosing { mode: u32, size: u64 },
    Examining { mode: u32, size: u64, destination: String },
    Staging(Placing),
    Copying(Placing, BoundedCopy),
    Appending(Placing, BoundedCopy, Vec<u8>),
    Resizing(Placing),
    SettingMode(Placing),
    Installing(Placing),
    Discarding(Error),
    Finished(Placing),
    Refused(Error),
}

/// How far a fetch has come.
#[verifier::ext_equal]
pub enum FetchStageView {
    Asking,
    Choosing { mode: u32, size: u64 },
    Examining { mode: u32, size: u64, destination: Seq<char> },
    Staging(PlacingView),
    Copying(PlacingView, CopyView),
    Appending(PlacingView, CopyView, Seq<u8>),
    Resizing(PlacingView),
    SettingMode(PlacingView),
    Installing(PlacingView),
    Discarding(Refusal),
    Finished(PlacingView),
    Refused(Refusal),
}

impl View for FetchStage {
    type V = FetchStageView;

    closed spec fn view(&self) -> FetchStageView {
        match self {
            FetchStage::Asking => FetchStageView::Asking,
            FetchStage::Choosing { mode, size } => FetchStageView::Choosing {
                mode: *mode,
                size: *size,
            },
            FetchStage::Examining { mode, size, destination } => FetchStageView::Examining {
                mode: *mode,
                size: *size,
                destination: destination@,
            },
            FetchStage::Staging(placing) => FetchStageView::Staging(placing@),
            FetchStage::Copying(placing, copy) => FetchStageView::Copying(placing@, copy@),
            FetchStage::Appending(placing, copy, chunk) => FetchStageView::Appending(
                placing@,
                copy@,
                chunk@,
            ),
            FetchStage::Resizing(placing) => FetchStageView::Resizing(placing@),
            FetchStage::SettingMode(placing) => FetchStageView::SettingMode(placing@),
            FetchStage::Installing(placing) => FetchStageView::Installing(placing@),
            FetchStage::Discarding(error) => FetchStageView::Discarding(error@),
            FetchStage::Finished(placing) => FetchStageView::Finished(placing@),
            FetchStage::Refused(error) => FetchStageView::Refused(error@),
        }
    }
}

/// A file being fetched.
#[derive(Debug)]
pub struct Fetch {
    guest_path: String,
    host_path: String,
    host: HostOs,
    max_file_bytes: u64,
    stage: FetchStage,
}

#[verifier::ext_equal]
pub struct FetchView {
    pub guest_path: Seq<char>,
    pub host_path: Seq<char>,
    pub host: HostOs,
    pub max_file_bytes: u64,
    pub stage: FetchStageView,
}

impl View for Fetch {
    type V = FetchView;

    closed spec fn view(&self) -> FetchView {
        FetchView {
            guest_path: self.guest_path@,
            host_path: self.host_path@,
            host: self.host,
            max_file_bytes: self.max_file_bytes,
            stage: self.stage@,
        }
    }
}

/// A copy that is on, over, or has come to an end too soon.
pub open spec fn copied_on(placing: PlacingView, copy: CopyView, guest_path: Seq<char>) -> FetchStageView {
    if copy.sent == copy.size {
        FetchStageView::Resizing(placing)
    } else if copy.ended {
        FetchStageView::Discarding(
            put_get::received_verdict(guest_path, copy.sent, copy.size)->Err_0,
        )
    } else {
        FetchStageView::Copying(placing, copy)
    }
}

/// What a fetch asks for.
pub open spec fn fetch_step(fetch: FetchView) -> FetchStepView {
    match fetch.stage {
        FetchStageView::Asking => FetchStepView::Ask,
        FetchStageView::Choosing { .. } => FetchStepView::LookAt(fetch.host_path),
        FetchStageView::Examining { destination, .. } => FetchStepView::Examine(destination),
        FetchStageView::Staging(placing) => FetchStepView::Stage(placing.path),
        FetchStageView::Copying(_, copy) => FetchStepView::Receive(put_get::next_chunk(copy)),
        FetchStageView::Appending(_, _, chunk) => FetchStepView::Append(chunk),
        FetchStageView::Resizing(placing) => FetchStepView::Resize(placing.size),
        FetchStageView::SettingMode(placing) => FetchStepView::SetMode(
            placing.mode & 0o755,
        ),
        FetchStageView::Installing(placing) => FetchStepView::Install(placing.path),
        FetchStageView::Discarding(_) => FetchStepView::Discard,
        FetchStageView::Finished(_) => FetchStepView::Nothing,
        FetchStageView::Refused(_) => FetchStepView::Nothing,
    }
}

/// Where a fetch goes once it was told what came of what it asked for; what
/// is no answer to that changes nothing.
pub open spec fn stage_after(fetch: FetchView, event: FetchEvent) -> FetchStageView {
    let receiving = error::refusal("receiving the file"@);
    match fetch.stage {
        FetchStageView::Asking => match event {
            FetchEvent::Replied(read) => match put_get::promised(
                fetch.guest_path,
                read,
                fetch.max_file_bytes,
            ) {
                Ok((mode, size)) => FetchStageView::Choosing { mode, size },
                Err(refused) => FetchStageView::Refused(refused),
            },
            FetchEvent::Failed(error) => FetchStageView::Refused(
                error::refusal("sending the request"@) + error@,
            ),
            _ => fetch.stage,
        },
        FetchStageView::Choosing { mode, size } => match event {
            FetchEvent::IsDir(is_dir) => match put_get::destination_of(
                fetch.host_path,
                is_dir,
                fetch.guest_path,
                fetch.host,
            ) {
                Ok(destination) => FetchStageView::Examining { mode, size, destination },
                Err(refused) => FetchStageView::Refused(refused),
            },
            _ => fetch.stage,
        },
        FetchStageView::Examining { mode, size, destination } => match event {
            FetchEvent::Found(facts) => match put_get::write_path(destination, facts) {
                Ok(path) => FetchStageView::Staging(PlacingView { mode, size, destination, path }),
                Err(refused) => FetchStageView::Refused(refused),
            },
            _ => fetch.stage,
        },
        FetchStageView::Staging(placing) => match event {
            FetchEvent::Done => copied_on(
                placing,
                CopyView { size: placing.size as nat, sent: 0, ended: false },
                fetch.guest_path,
            ),
            FetchEvent::Failed(error) => FetchStageView::Refused(error@),
            _ => fetch.stage,
        },
        FetchStageView::Copying(placing, copy) => match event {
            FetchEvent::Received(chunk) => if chunk@.len() == 0 {
                copied_on(placing, CopyView { ended: true, ..copy }, fetch.guest_path)
            } else {
                FetchStageView::Appending(
                    placing,
                    copy,
                    bytes::at_most(chunk@, put_get::next_chunk(copy)),
                )
            },
            FetchEvent::Late => FetchStageView::Discarding(
                put_get::out_of_time("receiving the file"@),
            ),
            FetchEvent::Failed(error) => FetchStageView::Discarding(receiving + error@),
            _ => fetch.stage,
        },
        FetchStageView::Appending(placing, copy, chunk) => match event {
            FetchEvent::Done => copied_on(
                placing,
                CopyView { sent: copy.sent + chunk.len(), ..copy },
                fetch.guest_path,
            ),
            FetchEvent::Failed(error) => FetchStageView::Discarding(receiving + error@),
            _ => fetch.stage,
        },
        FetchStageView::Resizing(placing) => match event {
            FetchEvent::Done => FetchStageView::SettingMode(placing),
            FetchEvent::Failed(error) => FetchStageView::Discarding(
                error::refusal("sizing "@ + placing.path) + error@,
            ),
            _ => fetch.stage,
        },
        FetchStageView::SettingMode(placing) => match event {
            FetchEvent::Done => FetchStageView::Installing(placing),
            FetchEvent::Failed(error) => FetchStageView::Discarding(
                error::refusal("setting permissions on "@ + placing.path) + error@,
            ),
            _ => fetch.stage,
        },
        FetchStageView::Installing(placing) => match event {
            FetchEvent::Done => FetchStageView::Finished(placing),
            FetchEvent::Failed(error) => FetchStageView::Discarding(error@),
            _ => fetch.stage,
        },
        FetchStageView::Discarding(refused) => match event {
            FetchEvent::Done => FetchStageView::Refused(refused),
            FetchEvent::Failed(_) => FetchStageView::Refused(refused),
            _ => fetch.stage,
        },
        FetchStageView::Finished(_) => fetch.stage,
        FetchStageView::Refused(_) => fetch.stage,
    }
}

pub open spec fn fetch_after(fetch: FetchView, event: FetchEvent) -> FetchView {
    FetchView { stage: stage_after(fetch, event), ..fetch }
}

/// Whether a fetch has counted no more than was promised.
pub open spec fn well_fetched(fetch: FetchView) -> bool {
    match fetch.stage {
        FetchStageView::Copying(placing, copy) => copy.size == placing.size && copy.sent
            < copy.size && !copy.ended,
        FetchStageView::Appending(placing, copy, chunk) => copy.size == placing.size && !copy.ended
            && 0 < chunk.len() && copy.sent + chunk.len() <= copy.size,
        _ => true,
    }
}

fn go_on(placing: Placing, copy: BoundedCopy, guest_path: &str) -> (stage: FetchStage)
    requires
        copy@.size == placing@.size,
    ensures
        stage@ == copied_on(placing@, copy@, guest_path@),
{
    if copy.sent() == placing.size {
        return FetchStage::Resizing(placing);
    }
    if copy.has_ended() {
        return match check_received(guest_path, copy.sent(), placing.size) {
            Err(error) => FetchStage::Discarding(error),
            Ok(()) => FetchStage::Resizing(placing),
        };
    }
    FetchStage::Copying(placing, copy)
}

impl Fetch {
    #[verifier::type_invariant]
    closed spec fn stands(&self) -> bool {
        well_fetched(self@)
    }

    /// Begins to fetch a file of the box to a path of the host.
    pub fn start(guest_path: &str, host_path: &str, host: HostOs, max_file_bytes: u64) -> (fetch: Fetch)
        ensures
            fetch@ == (FetchView {
                guest_path: guest_path@,
                host_path: host_path@,
                host,
                max_file_bytes,
                stage: FetchStageView::Asking,
            }),
    {
        Fetch {
            guest_path: guest_path.to_owned(),
            host_path: host_path.to_owned(),
            host,
            max_file_bytes,
            stage: FetchStage::Asking,
        }
    }

    /// What has to be done now.
    pub fn next(&self) -> (step: FetchStep)
        ensures
            step@ == fetch_step(self@),
    {
        proof {
            use_type_invariant(self);
        }
        match &self.stage {
            FetchStage::Asking => FetchStep::Ask,
            FetchStage::Choosing { .. } => FetchStep::LookAt(self.host_path.as_str().to_owned()),
            FetchStage::Examining { destination, .. } => FetchStep::Examine(
                destination.as_str().to_owned(),
            ),
            FetchStage::Staging(placing) => FetchStep::Stage(placing.path.as_str().to_owned()),
            FetchStage::Copying(_, copy) => FetchStep::Receive(copy.wanted()),
            FetchStage::Appending(_, _, chunk) => {
                let bytes = chunk.clone();
                proof {
                    assert(bytes@ =~= chunk@);
                }
                FetchStep::Append(bytes)
            },
            FetchStage::Resizing(placing) => FetchStep::Resize(placing.size),
            FetchStage::SettingMode(placing) => FetchStep::SetMode(to_safe_mode(placing.mode)),
            FetchStage::Installing(placing) => FetchStep::Install(placing.path.as_str().to_owned()),
            FetchStage::Discarding(_) => FetchStep::Discard,
            FetchStage::Finished(_) => FetchStep::Nothing,
            FetchStage::Refused(_) => FetchStep::Nothing,
        }
    }

    /// Takes in what came of it.
    pub fn advance(self, event: FetchEvent) -> (fetch: Fetch)
        ensures
            fetch@ == fetch_after(self@, event),
    {
        proof {
            use_type_invariant(&self);
        }
        let stage = match (self.stage, event) {
            (FetchStage::Asking, FetchEvent::Replied(read)) => match check_get(
                self.guest_path.as_str(),
                read,
                self.max_file_bytes,
            ) {
                Ok((mode, size)) => FetchStage::Choosing { mode, size },
                Err(error) => FetchStage::Refused(error),
            },
            (FetchStage::Asking, FetchEvent::Failed(error)) => FetchStage::Refused(
                error.context("sending the request".to_owned()),
            ),
            (FetchStage::Choosing { mode, size }, FetchEvent::IsDir(is_dir)) => {
                match choose_destination(
                    self.host_path.as_str(),
                    is_dir,
                    self.guest_path.as_str(),
                    self.host,
                ) {
                    Ok(destination) => FetchStage::Examining { mode, size, destination },
                    Err(error) => FetchStage::Refused(error),
                }
            },
            (FetchStage::Examining { mode, size, destination }, FetchEvent::Found(facts)) => {
                match check_destination(destination.as_str(), facts) {
                    Ok(path) => FetchStage::Staging(Placing { mode, size, destination, path }),
                    Err(error) => FetchStage::Refused(error),
                }
            },
            (FetchStage::Staging(placing), FetchEvent::Done) => {
                let copy = BoundedCopy::new(placing.size);
                go_on(placing, copy, self.guest_path.as_str())
            },
            (FetchStage::Staging(_), FetchEvent::Failed(error)) => FetchStage::Refused(error),
            (FetchStage::Copying(placing, copy), FetchEvent::Received(chunk)) => {
                let bytes = take_at_most(chunk, copy.wanted());
                if bytes.len() == 0 {
                    let mut copy = copy;
                    copy.took(0);
                    go_on(placing, copy, self.guest_path.as_str())
                } else {
                    FetchStage::Appending(placing, copy, bytes)
                }
            },
            (FetchStage::Copying(_, _), FetchEvent::Late) => FetchStage::Discarding(
                refuse_late("receiving the file"),
            ),
            (FetchStage::Copying(_, _), FetchEvent::Failed(error)) => FetchStage::Discarding(
                error.context("receiving the file".to_owned()),
            ),
            (FetchStage::Appending(placing, copy, chunk), FetchEvent::Done) => {
                let mut copy = copy;
                copy.took(chunk.len());
                go_on(placing, copy, self.guest_path.as_str())
            },
            (FetchStage::Appending(_, _, _), FetchEvent::Failed(error)) => FetchStage::Discarding(
                error.context("receiving the file".to_owned()),
            ),
            (FetchStage::Resizing(placing), FetchEvent::Done) => FetchStage::SettingMode(placing),
            (FetchStage::Resizing(placing), FetchEvent::Failed(error)) => {
                let mut what: String = "sizing ".to_owned();
                what.append(placing.path.as_str());
                FetchStage::Discarding(error.context(what))
            },
            (FetchStage::SettingMode(placing), FetchEvent::Done) => FetchStage::Installing(placing),
            (FetchStage::SettingMode(placing), FetchEvent::Failed(error)) => {
                let mut what: String = "setting permissions on ".to_owned();
                what.append(placing.path.as_str());
                FetchStage::Discarding(error.context(what))
            },
            (FetchStage::Installing(placing), FetchEvent::Done) => FetchStage::Finished(placing),
            (FetchStage::Installing(_), FetchEvent::Failed(error)) => FetchStage::Discarding(error),
            (FetchStage::Discarding(error), FetchEvent::Done) => FetchStage::Refused(error),
            (FetchStage::Discarding(error), FetchEvent::Failed(_)) => FetchStage::Refused(error),
            (stage, _) => stage,
        };
        Fetch {
            guest_path: self.guest_path,
            host_path: self.host_path,
            host: self.host,
            max_file_bytes: self.max_file_bytes,
            stage,
        }
    }

    /// What is said of the file that was fetched, or why it was not; `None`
    /// while it is under way.
    pub fn into_result(self) -> (result: Option<Result<String, Error>>)
        ensures
            match self@.stage {
                FetchStageView::Finished(placing) => result is Some && result->0 is Ok
                    && result->0->Ok_0@ == put_get::copied_line(
                    self@.guest_path,
                    placing.destination,
                    placing.size as nat,
                ),
                FetchStageView::Refused(refused) => result is Some && result->0 is Err
                    && result->0->Err_0@ == refused,
                _ => result is None,
            },
    {
        match self.stage {
            FetchStage::Finished(placing) => Some(
                Ok(report(self.guest_path.as_str(), placing.destination.as_str(), placing.size)),
            ),
            FetchStage::Refused(error) => Some(Err(error)),
            _ => None,
        }
    }
}

/// The file that is written, and what was put aside for it.
#[verifier::ext_equal]
pub struct FetchDisk {
    pub file: Option<Seq<u8>>,
    pub staged: Option<Seq<u8>>,
}

/// The disk once a step was done, or tried in vain: what was put aside may
/// then be anything, but nothing else was touched.
pub open spec fn disk_follows(
    before: FetchDisk,
    step: FetchStepView,
    event: FetchEvent,
    after: FetchDisk,
) -> bool {
    if event is Done {
        match step {
            FetchStepView::Stage(_) => after == (FetchDisk { staged: Some(Seq::empty()), ..before }),
            FetchStepView::Append(chunk) => after == (FetchDisk {
                staged: Some(before.staged->0 + chunk),
                ..before
            }),
            FetchStepView::Resize(size) => before.staged->0.len() == size ==> after == before,
            FetchStepView::Install(_) => after == (FetchDisk { file: before.staged, staged: None }),
            FetchStepView::Discard => after == (FetchDisk { staged: None, ..before }),
            _ => after == before,
        }
    } else if event is Failed {
        after.file == before.file
    } else {
        after == before
    }
}

/// The bytes that came, once more of them were put aside.
pub open spec fn received_after(received: Seq<u8>, step: FetchStepView, event: FetchEvent) -> Seq<u8> {
    match step {
        FetchStepView::Append(chunk) => if event is Done {
            received + chunk
        } else {
            received
        },
        _ => received,
    }
}

/// What holds of the disk at every point of a fetch: the file is as it was
/// until the fetch is finished, and then it holds all the bytes that came,
/// which are as many as were promised.
pub open spec fn file_is_safe(
    fetch: FetchView,
    disk: FetchDisk,
    first: Option<Seq<u8>>,
    received: Seq<u8>,
) -> bool {
    match fetch.stage {
        FetchStageView::Copying(_, copy) => disk.file == first && disk.staged == Some(received)
            && received.len() == copy.sent,
        FetchStageView::Appending(_, copy, _) => disk.file == first && disk.staged == Some(received)
            && received.len() == copy.sent,
        FetchStageView::Resizing(placing) => disk.file == first && disk.staged == Some(received)
            && received.len() == placing.size,
        FetchStageView::SettingMode(placing) => disk.file == first && disk.staged == Some(received)
            && received.len() == placing.size,
        FetchStageView::Installing(placing) => disk.file == first && disk.staged == Some(received)
            && received.len() == placing.size,
        FetchStageView::Finished(placing) => disk.file == Some(received) && received.len()
            == placing.size,
        FetchStageView::Discarding(_) => disk.file == first,
        FetchStageView::Refused(_) => disk.file == first,
        _ => disk.file == first && received.len() == 0,
    }
}

/// A fetch replaces a file only by a whole one: whatever comes of each step,
/// the file is as it was until all that was promised has come and was put in
/// its place; a fetch that is refused leaves it.
pub proof fn fetches_replace_whole_files_only(
    fetch: FetchView,
    event: FetchEvent,
    before: FetchDisk,
    after: FetchDisk,
    first: Option<Seq<u8>>,
    received: Seq<u8>,
)
    requires
        well_fetched(fetch),
        file_is_safe(fetch, before, first, received),
        disk_follows(before, fetch_step(fetch), event, after),
    ensures
        well_fetched(fetch_after(fetch, event)),
        file_is_safe(
            fetch_after(fetch, event),
            after,
            first,
            received_after(received, fetch_step(fetch), event),
        ),
{
    if fetch.stage is Staging {
        assert(received =~= Seq::empty());
    }
}

} // verus!
