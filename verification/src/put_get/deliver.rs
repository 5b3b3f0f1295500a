//! Sending a file into a box, step by step: as many bytes go as were promised,
//! with zeros for what the file no longer holds.

use crate::bytes::{self, take_at_most};
use crate::error::{self, Error, Refusal};
use crate::host::HostOs;
use crate::put_get::{
    self, BoundedCopy, CopyView, ReplyRead, check_put, check_put_source, refuse_late, report,
};
use crate::sync::security::{self, to_guest_mode};
use vstd::prelude::*;

verus! {

/// What a delivery asks for.
#[derive(Debug)]
pub enum DeliverStep {
    /// To open the file on the host.
    Open(String),
    /// To tell what was opened.
    Measure,
    /// To ask the box to take a file.
    Request { path: String, mode: u32, size: u64 },
    /// To read on in the file, so many bytes at most.
    Read(usize),
    /// To send bytes to the box.
    Send(Vec<u8>),
    /// To read the box's answer.
    AwaitReply,
    /// Nothing: it is over.
    Nothing,
}

#[verifier::ext_equal]
pub enum DeliverStepView {
    Open(Seq<char>),
    Measure,
    Request { path: Seq<char>, mode: u32, size: u64 },
    Read(nat),
    Send(Seq<u8>),
    AwaitReply,
    Nothing,
}

impl View for DeliverStep {
    type V = DeliverStepView;

    open spec fn view(&self) -> DeliverStepView {
        match self {
            DeliverStep::Open(path) => DeliverStepView::Open(path@),
            DeliverStep::Measure => DeliverStepView::Measure,
            DeliverStep::Request { path, mode, size } => DeliverStepView::Request {
                path: path@,
                mode: *mode,
                size: *size,
            },
            DeliverStep::Read(n) => DeliverStepView::Read(*n as nat),
            DeliverStep::Send(bytes) => DeliverStepView::Send(bytes@),
            DeliverStep::AwaitReply => DeliverStepView::AwaitReply,
            DeliverStep::Nothing => DeliverStepView::Nothing,
        }
    }
}

/// What came of it.
#[derive(Debug)]
pub enum DeliverEvent {
    Done,
    Measured { is_dir: bool, size: u64, mode: u32, readonly: bool },
    /// What was read; nothing at the end of the file.
    Chunk(Vec<u8>),
    /// Nothing was read, and it can be tried again.
    Interrupted,
    /// The time is up.
    Late,
    Replied(ReplyRead),
    Failed(Error),
}

/// How far a delivery has come.
#[derive(Debug)]
enum DeliverStage {
    Opening,
    Measuring,
    Requesting { mode: u32, size: u64 },
    Reading(BoundedCopy),
    Sending(BoundedCopy, Vec<u8>),
    /// So many bytes of so many were there; the rest is made up.
    Padding(u64, u64, BoundedCopy),
    Awaiting(u64, u64),
    Over(Result<u64, Error>),
}

#[verifier::ext_equal]
pub enum DeliverStageView {
    Opening,
    Measuring,
    Requesting { mode: u32, size: u64 },
    Reading(CopyView),
    Sending(CopyView, Seq<u8>),
    Padding(u64, u64, CopyView),
    Awaiting(u64, u64),
    Over(Result<u64, Refusal>),
}

impl View for DeliverStage {
    type V = DeliverStageView;

    closed spec fn view(&self) -> DeliverStageView {
        match self {
            DeliverStage::Opening => DeliverStageView::Opening,
            DeliverStage::Measuring => DeliverStageView::Measuring,
            DeliverStage::Requesting { mode, size } => DeliverStageView::Requesting {
                mode: *mode,
                size: *size,
            },
            DeliverStage::Reading(copy) => DeliverStageView::Reading(copy@),
            DeliverStage::Sending(copy, chunk) => DeliverStageView::Sending(copy@, chunk@),
            DeliverStage::Padding(sent, size, pad) => DeliverStageView::Padding(*sent, *size, pad@),
            DeliverStage::Awaiting(sent, size) => DeliverStageView::Awaiting(*sent, *size),
            DeliverStage::Over(Ok(sent)) => DeliverStageView::Over(Ok(*sent)),
            DeliverStage::Over(Err(error)) => DeliverStageView::Over(Err(error@)),
        }
    }
}

/// Sends a file of the host to a path of the box.
#[derive(Debug)]
pub struct Delivery {
    host_path: String,
    guest_path: String,
    host: HostOs,
    max_file_bytes: u64,
    stage: DeliverStage,
}

#[verifier::ext_equal]
pub struct DeliveryView {
    pub host_path: Seq<char>,
    pub guest_path: Seq<char>,
    pub host: HostOs,
    pub max_file_bytes: u64,
    pub stage: DeliverStageView,
}

impl View for Delivery {
    type V = DeliveryView;

    closed spec fn view(&self) -> DeliveryView {
        DeliveryView {
            host_path: self.host_path@,
            guest_path: self.guest_path@,
            host: self.host,
            max_file_bytes: self.max_file_bytes,
            stage: self.stage@,
        }
    }
}

/// Whether a delivery is in a state it can be in.
pub open spec fn delivery_stands(m: DeliveryView) -> bool {
    match m.stage {
        DeliverStageView::Reading(copy) => copy.sent < copy.size <= u64::MAX && !copy.ended,
        DeliverStageView::Sending(copy, chunk) => copy.size <= u64::MAX && !copy.ended && 0
            < chunk.len() <= put_get::next_chunk(copy) && copy.sent < copy.size,
        DeliverStageView::Padding(sent, size, pad) => sent < size && pad.size == size - sent
            && pad.sent < pad.size && !pad.ended,
        _ => true,
    }
}

/// So many zeros.
pub open spec fn zeros(n: nat) -> Seq<u8> {
    Seq::new(n, |i: int| 0u8)
}

/// What a delivery asks for.
pub open spec fn delivery_asks(m: DeliveryView) -> DeliverStepView {
    match m.stage {
        DeliverStageView::Opening => DeliverStepView::Open(m.host_path),
        DeliverStageView::Measuring => DeliverStepView::Measure,
        DeliverStageView::Requesting { mode, size } => DeliverStepView::Request {
            path: m.guest_path,
            mode,
            size,
        },
        DeliverStageView::Reading(copy) => DeliverStepView::Read(put_get::next_chunk(copy)),
        DeliverStageView::Sending(_, chunk) => DeliverStepView::Send(chunk),
        DeliverStageView::Padding(_, _, pad) => DeliverStepView::Send(
            zeros(put_get::next_chunk(pad)),
        ),
        DeliverStageView::Awaiting(_, _) => DeliverStepView::AwaitReply,
        DeliverStageView::Over(_) => DeliverStepView::Nothing,
    }
}

/// The stage once a copy has come so far.
pub open spec fn delivered_on(copy: CopyView) -> DeliverStageView {
    if copy.sent == copy.size {
        DeliverStageView::Awaiting(copy.sent as u64, copy.size as u64)
    } else if copy.ended {
        DeliverStageView::Padding(
            copy.sent as u64,
            copy.size as u64,
            CopyView { size: (copy.size - copy.sent) as nat, sent: 0, ended: false },
        )
    } else {
        DeliverStageView::Reading(copy)
    }
}

/// The stage once so much of the rest was made up.
pub open spec fn padded_on(sent: u64, size: u64, pad: CopyView) -> DeliverStageView {
    if pad.sent == pad.size {
        DeliverStageView::Awaiting(sent, size)
    } else {
        DeliverStageView::Padding(sent, size, pad)
    }
}

pub open spec fn undelivered(what: Seq<char>, why: Refusal) -> DeliverStageView {
    DeliverStageView::Over(Err(error::refusal(what) + why))
}

/// What becomes of a delivery once it is told what came of what it asked for.
/// What it did not ask for changes nothing.
pub open spec fn delivery_after(m: DeliveryView, event: DeliverEvent) -> DeliveryView {
    let sending = "sending the file"@;
    let completing = "completing a short transfer"@;
    let stage = match m.stage {
        DeliverStageView::Opening => match event {
            DeliverEvent::Done => DeliverStageView::Measuring,
            DeliverEvent::Failed(why) => undelivered("opening "@ + m.host_path, why@),
            _ => m.stage,
        },
        DeliverStageView::Measuring => match event {
            DeliverEvent::Measured { is_dir, size, mode, readonly } => match put_get::put_source_verdict(
                m.host_path,
                is_dir,
                size,
                m.max_file_bytes,
            ) {
                Err(refused) => DeliverStageView::Over(Err(refused)),
                Ok(_) => DeliverStageView::Requesting {
                    mode: if m.host == HostOs::Windows {
                        security::windows_mode(is_dir, readonly)
                    } else {
                        mode & 0o777
                    },
                    size,
                },
            },
            DeliverEvent::Failed(why) => undelivered("reading "@ + m.host_path, why@),
            _ => m.stage,
        },
        DeliverStageView::Requesting { size, .. } => match event {
            DeliverEvent::Done => delivered_on(
                CopyView { size: size as nat, sent: 0, ended: false },
            ),
            DeliverEvent::Failed(why) => undelivered("sending the request"@, why@),
            _ => m.stage,
        },
        DeliverStageView::Reading(copy) => match event {
            DeliverEvent::Chunk(chunk) => if chunk@.len() == 0 {
                delivered_on(CopyView { ended: true, ..copy })
            } else {
                DeliverStageView::Sending(copy, bytes::at_most(chunk@, put_get::next_chunk(copy)))
            },
            DeliverEvent::Late => DeliverStageView::Over(Err(put_get::out_of_time(sending))),
            DeliverEvent::Failed(why) => undelivered(sending, why@),
            _ => m.stage,
        },
        DeliverStageView::Sending(copy, chunk) => match event {
            DeliverEvent::Done => delivered_on(
                CopyView { sent: copy.sent + chunk.len(), ..copy },
            ),
            DeliverEvent::Failed(why) => undelivered(sending, why@),
            _ => m.stage,
        },
        DeliverStageView::Padding(sent, size, pad) => match event {
            DeliverEvent::Done => padded_on(
                sent,
                size,
                CopyView { sent: pad.sent + put_get::next_chunk(pad), ..pad },
            ),
            DeliverEvent::Late => DeliverStageView::Over(Err(put_get::out_of_time(completing))),
            DeliverEvent::Failed(why) => undelivered(completing, why@),
            _ => m.stage,
        },
        DeliverStageView::Awaiting(sent, size) => match event {
            DeliverEvent::Replied(read) => match put_get::put_verdict(m.host_path, read, sent, size) {
                Ok(_) => DeliverStageView::Over(Ok(sent)),
                Err(refused) => DeliverStageView::Over(Err(refused)),
            },
            _ => m.stage,
        },
        DeliverStageView::Over(_) => m.stage,
    };
    DeliveryView { stage, ..m }
}

fn deliver_on(copy: BoundedCopy) -> (stage: DeliverStage)
    ensures
        stage@ == delivered_on(copy@),
        copy@.sent <= copy@.size <= u64::MAX,
{
    let sent: u64 = copy.sent();
    let left: u64 = copy.padding();
    if left == 0 {
        return DeliverStage::Awaiting(sent, sent);
    }
    if copy.has_ended() {
        return DeliverStage::Padding(sent, copy.size(), BoundedCopy::new(left));
    }
    DeliverStage::Reading(copy)
}

fn fail(what: &str, why: Error) -> (stage: DeliverStage)
    ensures
        stage@ == undelivered(what@, why@),
{
    DeliverStage::Over(Err(why.context(what.to_owned())))
}

fn fail_at(what: &str, path: &str, why: Error) -> (stage: DeliverStage)
    ensures
        stage@ == undelivered(what@ + path@, why@),
{
    let mut message: String = what.to_owned();
    message.append(path);
    DeliverStage::Over(Err(why.context(message)))
}

fn make_zeros(n: usize) -> (bytes: Vec<u8>)
    ensures
        bytes@ == zeros(n as nat),
{
    let mut bytes: Vec<u8> = Vec::new();
    while bytes.len() < n
        invariant
            bytes@.len() <= n,
            bytes@ == zeros(bytes@.len()),
        decreases n - bytes.len(),
    {
        bytes.push(0);
        proof {
            assert(bytes@ =~= zeros(bytes@.len()));
        }
    }
    bytes
}

impl Delivery {
    #[verifier::type_invariant]
    closed spec fn stands(&self) -> bool {
        delivery_stands(self@)
    }

    /// Begins to send a file of the host to a path of the box.
    pub fn start(host_path: &str, guest_path: &str, host: HostOs, max_file_bytes: u64) -> (
        begun: Delivery)
        ensures
            begun@ == (DeliveryView {
                host_path: host_path@,
                guest_path: guest_path@,
                host,
                max_file_bytes,
                stage: DeliverStageView::Opening,
            }),
    {
        Delivery {
            host_path: host_path.to_owned(),
            guest_path: guest_path.to_owned(),
            host,
            max_file_bytes,
            stage: DeliverStage::Opening,
        }
    }

    /// What has to be done now.
    pub fn next(&self) -> (step: DeliverStep)
        ensures
            step@ == delivery_asks(self@),
    {
        match &self.stage {
            DeliverStage::Opening => DeliverStep::Open(self.host_path.as_str().to_owned()),
            DeliverStage::Measuring => DeliverStep::Measure,
            DeliverStage::Requesting { mode, size } => DeliverStep::Request {
                path: self.guest_path.as_str().to_owned(),
                mode: *mode,
                size: *size,
            },
            DeliverStage::Reading(copy) => DeliverStep::Read(copy.wanted()),
            DeliverStage::Sending(_, chunk) => {
                let bytes: Vec<u8> = chunk.clone();
                proof {
                    assert(bytes@ =~= chunk@);
                }
                DeliverStep::Send(bytes)
            },
            DeliverStage::Padding(_, _, pad) => DeliverStep::Send(make_zeros(pad.wanted())),
            DeliverStage::Awaiting(_, _) => DeliverStep::AwaitReply,
            DeliverStage::Over(_) => DeliverStep::Nothing,
        }
    }

    /// Takes in what came of it.
    pub fn advance(self, event: DeliverEvent) -> (next: Delivery)
        ensures
            next@ == delivery_after(self@, event),
    {
        proof {
            use_type_invariant(&self);
        }
        let host_path = self.host_path;
        let stage = match (self.stage, event) {
            (DeliverStage::Opening, DeliverEvent::Done) => DeliverStage::Measuring,
            (DeliverStage::Opening, DeliverEvent::Failed(why)) => fail_at(
                "opening ",
                host_path.as_str(),
                why,
            ),
            (
                DeliverStage::Measuring,
                DeliverEvent::Measured { is_dir, size, mode, readonly },
            ) => match check_put_source(host_path.as_str(), is_dir, size, self.max_file_bytes) {
                Ok(()) => DeliverStage::Requesting {
                    mode: to_guest_mode(self.host, mode, is_dir, readonly),
                    size,
                },
                Err(error) => DeliverStage::Over(Err(error)),
            },
            (DeliverStage::Measuring, DeliverEvent::Failed(why)) => fail_at(
                "reading ",
                host_path.as_str(),
                why,
            ),
            (DeliverStage::Requesting { size, .. }, DeliverEvent::Done) => deliver_on(
                BoundedCopy::new(size),
            ),
            (DeliverStage::Requesting { .. }, DeliverEvent::Failed(why)) => fail(
                "sending the request",
                why,
            ),
            (DeliverStage::Reading(copy), DeliverEvent::Chunk(chunk)) => {
                let mut copy = copy;
                let most: usize = copy.wanted();
                let bytes = take_at_most(chunk, most);
                if bytes.len() == 0 {
                    copy.took(0);
                    deliver_on(copy)
                } else {
                    DeliverStage::Sending(copy, bytes)
                }
            },
            (DeliverStage::Reading(_), DeliverEvent::Late) => DeliverStage::Over(
                Err(refuse_late("sending the file")),
            ),
            (DeliverStage::Reading(_), DeliverEvent::Failed(why)) => fail("sending the file", why),
            (DeliverStage::Sending(copy, chunk), DeliverEvent::Done) => {
                let mut copy = copy;
                copy.took(chunk.len());
                deliver_on(copy)
            },
            (DeliverStage::Sending(_, _), DeliverEvent::Failed(why)) => fail(
                "sending the file",
                why,
            ),
            (DeliverStage::Padding(sent, size, pad), DeliverEvent::Done) => {
                let mut pad = pad;
                pad.took(pad.wanted());
                if pad.padding() == 0 {
                    DeliverStage::Awaiting(sent, size)
                } else {
                    DeliverStage::Padding(sent, size, pad)
                }
            },
            (DeliverStage::Padding(_, _, _), DeliverEvent::Late) => DeliverStage::Over(
                Err(refuse_late("completing a short transfer")),
            ),
            (DeliverStage::Padding(_, _, _), DeliverEvent::Failed(why)) => fail(
                "completing a short transfer",
                why,
            ),
            (DeliverStage::Awaiting(sent, size), DeliverEvent::Replied(read)) => match check_put(
                host_path.as_str(),
                read,
                sent,
                size,
            ) {
                Ok(()) => DeliverStage::Over(Ok(sent)),
                Err(error) => DeliverStage::Over(Err(error)),
            },
            (stage, _) => stage,
        };
        Delivery {
            host_path,
            guest_path: self.guest_path,
            host: self.host,
            max_file_bytes: self.max_file_bytes,
            stage,
        }
    }

    /// What is said of the file that was sent, or why it was not; `None` while
    /// it is under way.
    pub fn into_result(self) -> (result: Option<Result<String, Error>>)
        ensures
            match self@.stage {
                DeliverStageView::Over(Ok(sent)) => result is Some && result->0 is Ok
                    && result->0->Ok_0@ == put_get::copied_line(
                    self@.host_path,
                    self@.guest_path,
                    sent as nat,
                ),
                DeliverStageView::Over(Err(refused)) => result is Some && result->0 is Err
                    && result->0->Err_0@ == refused,
                _ => result is None,
            },
    {
        match self.stage {
            DeliverStage::Over(Ok(sent)) => Some(
                Ok(report(self.host_path.as_str(), self.guest_path.as_str(), sent)),
            ),
            DeliverStage::Over(Err(error)) => Some(Err(error)),
            _ => None,
        }
    }
}

/// The bytes of the file that were read, and those the box was sent.
#[verifier::ext_equal]
pub struct Wire {
    pub read: Seq<u8>,
    pub sent: Seq<u8>,
}

/// What has been read and sent once a step was answered.
pub open spec fn wire_after(before: Wire, step: DeliverStepView, event: DeliverEvent) -> Wire {
    match (step, event) {
        (DeliverStepView::Read(most), DeliverEvent::Chunk(chunk)) => Wire {
            read: before.read + bytes::at_most(chunk@, most),
            ..before
        },
        (DeliverStepView::Send(bytes), DeliverEvent::Done) => Wire {
            sent: before.sent + bytes,
            ..before
        },
        _ => before,
    }
}

/// What holds while a file is delivered, by how far it has come.
pub open spec fn delivery_holds(m: DeliveryView, wire: Wire) -> bool {
    match m.stage {
        DeliverStageView::Opening | DeliverStageView::Measuring => wire.read.len() == 0
            && wire.sent.len() == 0,
        DeliverStageView::Requesting { .. } => wire.read.len() == 0 && wire.sent.len() == 0,
        DeliverStageView::Reading(copy) => wire.sent == wire.read && wire.sent.len() == copy.sent,
        DeliverStageView::Sending(copy, chunk) => wire.read == wire.sent + chunk && wire.sent.len()
            == copy.sent,
        DeliverStageView::Padding(sent, _, pad) => wire.read.len() == sent && wire.sent
            == wire.read + zeros(pad.sent),
        DeliverStageView::Awaiting(sent, size) => wire.read.len() == sent && sent <= size
            && wire.sent == wire.read + zeros((size - sent) as nat),
        DeliverStageView::Over(Ok(sent)) => wire.read.len() == sent && wire.sent == wire.read,
        DeliverStageView::Over(Err(_)) => true,
    }
}

/// The box is sent exactly as many bytes as it was promised: those of the file
/// in order, and zeros for what the file turned out not to hold. A delivery
/// succeeds only where the file held all of them.
pub proof fn deliveries_keep_their_promise(m: DeliveryView, event: DeliverEvent, wire: Wire)
    requires
        delivery_stands(m),
        delivery_holds(m, wire),
    ensures
        delivery_stands(delivery_after(m, event)),
        delivery_holds(delivery_after(m, event), wire_after(wire, delivery_asks(m), event)),
        delivery_after(m, event).stage matches DeliverStageView::Awaiting(_, size) ==> wire_after(
            wire,
            delivery_asks(m),
            event,
        ).sent.len() == size,
{
    let after = wire_after(wire, delivery_asks(m), event);
    assert(wire.read + zeros(0) =~= wire.read);
    match m.stage {
        DeliverStageView::Requesting { .. } => {
            assert(wire.read =~= Seq::empty() && wire.sent =~= Seq::empty());
        },
        DeliverStageView::Reading(copy) => {
            if let DeliverEvent::Chunk(chunk) = event {
                if chunk@.len() == 0 {
                    assert(after.read =~= wire.read);
                }
            }
        },
        DeliverStageView::Sending(_, _) => {
            assert(after.read + zeros(0) =~= after.read);
        },
        DeliverStageView::Padding(_, _, pad) => {
            assert(event is Done ==> after.sent =~= wire.read + zeros(
                pad.sent + put_get::next_chunk(pad),
            ));
        },
        _ => {},
    }
}

} // verus!
