//! What a copy of one file comes to, from its start to its end.

use crate::bytes;
use crate::cli::CopyArgs;
use crate::error::Refusal;
use crate::host::HostOs;
use crate::path;
use crate::put_get::deliver::{
    self, DeliverEvent, DeliverStageView, DeliverStepView, DeliveryView, Wire,
};
use crate::put_get::fetch::{self, FetchDisk, FetchEvent, FetchStageView, FetchStepView, FetchView};
use crate::put_get::{self, CopyView, DestinationFacts, Direction, FileReply, ReplyRead};
use crate::render;
use vstd::prelude::*;

verus! {

/// The first path of a copy is where the file comes from and the second where
/// it goes; which of them is the host's goes by the direction.
pub proof fn files_go_from_the_first_path_to_the_second(args: CopyArgs)
    ensures
        put_get::sides(args, Direction::IntoBox).0 == args.src@,
        put_get::sides(args, Direction::IntoBox).1 == args.dst@,
        put_get::sides(args, Direction::OutOfBox).0 == args.dst@,
        put_get::sides(args, Direction::OutOfBox).1 == args.src@,
{
}

/// A box is taken at its word: the mode and the size it replies with are what
/// is promised, unless that is more than may be copied. Nothing else it can
/// say promises a file.
pub proof fn replies_are_taken_at_their_word(
    guest_path: Seq<char>,
    read: ReplyRead,
    max_file_bytes: u64,
)
    ensures
        match put_get::promised(guest_path, read, max_file_bytes) {
            Ok((mode, size)) => read == ReplyRead::Reply(FileReply::Get { mode, size }) && size
                <= max_file_bytes,
            Err(_) => !(read matches ReplyRead::Reply(FileReply::Get { size, .. }) && size
                <= max_file_bytes),
        },
{
}

/// A file has arrived in a box exactly where the box says so and all of it was
/// there to send.
pub proof fn files_arrive_whole_or_not_at_all(
    host_path: Seq<char>,
    read: ReplyRead,
    sent: u64,
    size: u64,
)
    ensures
        put_get::put_verdict(host_path, read, sent, size) is Ok <==> read == ReplyRead::Reply(
            FileReply::Put,
        ) && sent == size,
{
}

/// A file can be sent exactly where it is no directory and not too large.
pub proof fn single_files_of_some_size_are_sent(
    host_path: Seq<char>,
    is_dir: bool,
    size: u64,
    max_file_bytes: u64,
)
    ensures
        put_get::put_source_verdict(host_path, is_dir, size, max_file_bytes) is Ok <==> !is_dir
            && size <= max_file_bytes,
{
}

/// A file was fetched whole exactly where as many bytes came as were promised.
pub proof fn fetched_files_are_counted(guest_path: Seq<char>, received: nat, size: nat)
    ensures
        put_get::received_verdict(guest_path, received, size) is Ok <==> received == size,
{
}

/// Into a directory a file is fetched under its own name, and to any other path
/// as that path says.
pub proof fn files_are_fetched_to_where_they_are_asked(
    host_path: Seq<char>,
    is_dir: bool,
    guest_path: Seq<char>,
    host: HostOs,
)
    ensures
        !is_dir ==> put_get::destination_of(host_path, is_dir, guest_path, host) == Ok::<_, Refusal>(
            host_path,
        ),
        is_dir && host != HostOs::Windows ==> match path::file_name(guest_path) {
            Some(name) => put_get::destination_of(host_path, is_dir, guest_path, host) == Ok::<
                _,
                Refusal,
            >(path::placed(host_path, name)),
            None => put_get::destination_of(host_path, is_dir, guest_path, host) is Err,
        },
{
}

/// A fetched file is written where nothing lies yet or over a file, where the
/// links to that one lead; over nothing else.
pub proof fn only_files_are_written_over(destination: Seq<char>, facts: DestinationFacts)
    ensures
        match put_get::write_path(destination, facts) {
            Ok(path) => match facts {
                DestinationFacts::Missing => path == destination,
                DestinationFacts::There { is_file, followed } => is_file && followed is Ok && path
                    == followed->Ok_0@,
                _ => false,
            },
            Err(_) => match facts {
                DestinationFacts::Missing => false,
                DestinationFacts::There { is_file, followed } => !is_file || followed is Err,
                _ => true,
            },
        },
{
}

/// A fetch from its start on, and what came of each thing it asked for.
pub open spec fn fetch_runs(stages: Seq<FetchView>, events: Seq<FetchEvent>) -> bool {
    &&& stages.len() == events.len() + 1
    &&& stages[0].stage == FetchStageView::Asking
    &&& forall|k: int|
        0 <= k < events.len() ==> stages[k + 1] == fetch::fetch_after(
            stages[k],
            #[trigger] events[k],
        )
}

/// Whether the box replied with a mode and a size before some step, when it was
/// asked for the file.
pub open spec fn was_promised(
    stages: Seq<FetchView>,
    events: Seq<FetchEvent>,
    k: int,
    mode: u32,
    size: u64,
) -> bool {
    exists|j: int|
        0 <= j < k && fetch::fetch_step(stages[j]) is Ask && #[trigger] events[j]
            == FetchEvent::Replied(ReplyRead::Reply(FileReply::Get { mode, size }))
}

/// Whether a destination was chosen before some step: what was typed, or, where
/// that is a directory, the file's own name in it.
pub open spec fn was_chosen(
    stages: Seq<FetchView>,
    events: Seq<FetchEvent>,
    k: int,
    destination: Seq<char>,
) -> bool {
    exists|j: int|
        0 <= j < k && fetch::fetch_step(stages[j]) == FetchStepView::LookAt(stages[0].host_path) && (
        #[trigger] events[j] matches FetchEvent::IsDir(is_dir) && put_get::destination_of(
            stages[0].host_path,
            is_dir,
            stages[0].guest_path,
            stages[0].host,
        ) == Ok::<_, Refusal>(destination))
}

/// Whether a path was found before some step to be where a destination is
/// written.
pub open spec fn was_found(
    stages: Seq<FetchView>,
    events: Seq<FetchEvent>,
    k: int,
    destination: Seq<char>,
    path: Seq<char>,
) -> bool {
    exists|j: int|
        0 <= j < k && fetch::fetch_step(stages[j]) == FetchStepView::Examine(destination) && (
        #[trigger] events[j] matches FetchEvent::Found(facts) && put_get::write_path(
            destination,
            facts,
        ) == Ok::<_, Refusal>(path))
}

spec fn fetch_remembers(stages: Seq<FetchView>, events: Seq<FetchEvent>, k: int) -> bool {
    let m = stages[k];
    let is_placed = |p: fetch::PlacingView|
        {
            &&& was_promised(stages, events, k, p.mode, p.size)
            &&& was_chosen(stages, events, k, p.destination)
            &&& was_found(stages, events, k, p.destination, p.path)
            &&& p.size <= m.max_file_bytes
        };
    &&& m.guest_path == stages[0].guest_path
    &&& m.host_path == stages[0].host_path
    &&& m.host == stages[0].host
    &&& m.max_file_bytes == stages[0].max_file_bytes
    &&& fetch::well_fetched(m)
    &&& match m.stage {
        FetchStageView::Choosing { mode, size } => was_promised(stages, events, k, mode, size)
            && size <= m.max_file_bytes,
        FetchStageView::Examining { mode, size, destination } => was_promised(
            stages,
            events,
            k,
            mode,
            size,
        ) && was_chosen(stages, events, k, destination) && size <= m.max_file_bytes,
        FetchStageView::Staging(p) => is_placed(p),
        FetchStageView::Copying(p, _) => is_placed(p),
        FetchStageView::Appending(p, _, _) => is_placed(p),
        FetchStageView::Resizing(p) => is_placed(p),
        FetchStageView::SettingMode(p) => is_placed(p),
        FetchStageView::Installing(p) => is_placed(p),
        FetchStageView::Finished(p) => is_placed(p),
        _ => true,
    }
}

proof fn lemma_remembered(stages: Seq<FetchView>, events: Seq<FetchEvent>, k: int)
    ensures
        forall|mode: u32, size: u64| #[trigger]
            was_promised(stages, events, k, mode, size) ==> was_promised(
                stages,
                events,
                k + 1,
                mode,
                size,
            ),
        forall|d: Seq<char>| #[trigger]
            was_chosen(stages, events, k, d) ==> was_chosen(stages, events, k + 1, d),
        forall|d: Seq<char>, p: Seq<char>| #[trigger]
            was_found(stages, events, k, d, p) ==> was_found(stages, events, k + 1, d, p),
{
}

proof fn lemma_fetch_remembers(stages: Seq<FetchView>, events: Seq<FetchEvent>, k: int)
    requires
        fetch_runs(stages, events),
        0 <= k <= events.len(),
    ensures
        fetch_remembers(stages, events, k),
    decreases k,
{
    if k > 0 {
        let j = k - 1;
        lemma_fetch_remembers(stages, events, j);
        lemma_remembered(stages, events, j);
        let event = events[j];
        let m = stages[j];
        match m.stage {
            FetchStageView::Asking => {
                if let FetchEvent::Replied(read) = event {
                    replies_are_taken_at_their_word(m.guest_path, read, m.max_file_bytes);
                    if let FetchStageView::Choosing { mode, size } = stages[k].stage {
                        assert(events[j] == FetchEvent::Replied(
                            ReplyRead::Reply(FileReply::Get { mode, size }),
                        ));
                        assert(was_promised(stages, events, k, mode, size));
                    }
                }
            },
            FetchStageView::Choosing { mode, size } => {
                if let FetchStageView::Examining { destination, .. } = stages[k].stage {
                    assert(was_chosen(stages, events, k, destination));
                }
            },
            FetchStageView::Examining { mode, size, destination } => {
                if let FetchStageView::Staging(p) = stages[k].stage {
                    assert(was_found(stages, events, k, destination, p.path));
                }
            },
            _ => {},
        }
    }
}

/// What a fetch does to a disk follows from what it was told: a file is staged
/// and installed where the destination that was typed leads, it gets the length
/// the box promised, and its mode is the one the box replied with, less the
/// rights that no fetched file has. A fetch ends well only after a reply that
/// promised a file that may be copied.
pub proof fn fetches_keep_to_what_was_replied(
    stages: Seq<FetchView>,
    events: Seq<FetchEvent>,
    k: int,
)
    requires
        fetch_runs(stages, events),
        0 <= k <= events.len(),
    ensures
        fetch::fetch_step(stages[k]) matches FetchStepView::SetMode(mode) ==> exists|
            said: u32,
            size: u64,
        |
            mode == said & 0o755 && #[trigger] was_promised(stages, events, k, said, size),
        fetch::fetch_step(stages[k]) matches FetchStepView::Resize(size) ==> exists|mode: u32|
            #[trigger] was_promised(stages, events, k, mode, size),
        fetch::fetch_step(stages[k]) matches FetchStepView::Examine(destination) ==> was_chosen(
            stages,
            events,
            k,
            destination,
        ),
        fetch::fetch_step(stages[k]) matches FetchStepView::Stage(path) ==> exists|d: Seq<char>|
            was_chosen(stages, events, k, d) && #[trigger] was_found(stages, events, k, d, path),
        fetch::fetch_step(stages[k]) matches FetchStepView::Install(path) ==> exists|d: Seq<char>|
            was_chosen(stages, events, k, d) && #[trigger] was_found(stages, events, k, d, path),
        stages[k].stage matches FetchStageView::Finished(placing) ==> {
            &&& placing.size <= stages[0].max_file_bytes
            &&& was_promised(stages, events, k, placing.mode, placing.size)
            &&& was_chosen(stages, events, k, placing.destination)
        },
{
    lemma_fetch_remembers(stages, events, k);
    let step = fetch::fetch_step(stages[k]);
    let stage = stages[k].stage;
    if let FetchStepView::SetMode(mode) = step {
        let p = stage->SettingMode_0;
        assert(mode == p.mode & 0o755);
        assert(was_promised(stages, events, k, p.mode, p.size));
    }
    if let FetchStepView::Resize(size) = step {
        let p = stage->Resizing_0;
        assert(was_promised(stages, events, k, p.mode, size));
    }
    if let FetchStepView::Stage(path) = step {
        let p = stage->Staging_0;
        assert(was_found(stages, events, k, p.destination, path));
    }
    if let FetchStepView::Install(path) = step {
        let p = stage->Installing_0;
        assert(was_found(stages, events, k, p.destination, path));
    }
}

/// The bytes that were received and put aside before some step.
pub open spec fn bytes_received(stages: Seq<FetchView>, events: Seq<FetchEvent>, k: int) -> Seq<u8>
    decreases k,
{
    if k <= 0 {
        Seq::empty()
    } else {
        fetch::received_after(
            bytes_received(stages, events, k - 1),
            fetch::fetch_step(stages[k - 1]),
            events[k - 1],
        )
    }
}

/// A fetch from its start on leaves the file as it was, or, once it ended well,
/// with all the bytes that came, in their order, as many as the box promised.
pub proof fn fetched_files_hold_what_came(
    stages: Seq<FetchView>,
    events: Seq<FetchEvent>,
    disks: Seq<FetchDisk>,
    k: int,
)
    requires
        fetch_runs(stages, events),
        disks.len() == stages.len(),
        forall|j: int|
            0 <= j < events.len() ==> fetch::disk_follows(
                disks[j],
                fetch::fetch_step(stages[j]),
                #[trigger] events[j],
                disks[j + 1],
            ),
        0 <= k <= events.len(),
    ensures
        !(stages[k].stage is Finished) ==> disks[k].file == disks[0].file,
        stages[k].stage is Finished ==> disks[k].file == Some(bytes_received(stages, events, k)),
        stages[k].stage is Finished ==> exists|mode: u32| #[trigger]
            was_promised(
                stages,
                events,
                k,
                mode,
                bytes_received(stages, events, k).len() as u64,
            ),
        fetch::file_is_safe(stages[k], disks[k], disks[0].file, bytes_received(stages, events, k)),
    decreases k,
{
    lemma_fetch_remembers(stages, events, k);
    if k > 0 {
        fetched_files_hold_what_came(stages, events, disks, k - 1);
        lemma_fetch_remembers(stages, events, k - 1);
        let event = events[k - 1];
        fetch::fetches_replace_whole_files_only(
            stages[k - 1],
            event,
            disks[k - 1],
            disks[k],
            disks[0].file,
            bytes_received(stages, events, k - 1),
        );
    }
}

/// Whether everything comes of a step of a fetch that it asks for, and the box
/// says nothing it may not.
pub open spec fn comes_well(m: FetchView, event: FetchEvent) -> bool {
    match fetch::fetch_step(m) {
        FetchStepView::Ask => event matches FetchEvent::Replied(
            ReplyRead::Reply(FileReply::Get { size, .. }),
        ) && size <= m.max_file_bytes,
        FetchStepView::LookAt(_) => event == FetchEvent::IsDir(false),
        FetchStepView::Examine(_) => event == FetchEvent::Found(DestinationFacts::Missing),
        FetchStepView::Receive(_) => event matches FetchEvent::Received(chunk) && chunk@.len() > 0,
        _ => event is Done,
    }
}

/// A fetch does not fail where nothing goes wrong: it is never refused, and
/// discards nothing.
pub proof fn fetches_go_through(stages: Seq<FetchView>, events: Seq<FetchEvent>, k: int)
    requires
        fetch_runs(stages, events),
        forall|j: int| 0 <= j < events.len() ==> comes_well(stages[j], #[trigger] events[j]),
        0 <= k <= events.len(),
    ensures
        !(stages[k].stage is Refused) && !(stages[k].stage is Discarding),
    decreases k,
{
    if k > 0 {
        fetches_go_through(stages, events, k - 1);
        lemma_fetch_remembers(stages, events, k - 1);
        assert(comes_well(stages[k - 1], events[k - 1]));
    }
}

/// A delivery from its start on, and what came of each thing it asked for.
pub open spec fn delivery_runs(stages: Seq<DeliveryView>, events: Seq<DeliverEvent>) -> bool {
    &&& stages.len() == events.len() + 1
    &&& stages[0].stage == DeliverStageView::Opening
    &&& forall|k: int|
        0 <= k < events.len() ==> stages[k + 1] == deliver::delivery_after(
            stages[k],
            #[trigger] events[k],
        )
}

/// Whether the file was measured before some step: of a size, and with a mode
/// that stands for what was seen of it.
pub open spec fn was_measured(
    stages: Seq<DeliveryView>,
    events: Seq<DeliverEvent>,
    k: int,
    sent_mode: u32,
    sent_size: u64,
) -> bool {
    exists|j: int|
        0 <= j < k && deliver::delivery_asks(stages[j]) is Measure && (#[trigger] events[j]
            matches DeliverEvent::Measured { is_dir, size, mode, readonly } && {
            &&& !is_dir
            &&& size == sent_size
            &&& size <= stages[0].max_file_bytes
            &&& sent_mode == if stages[0].host == HostOs::Windows {
                if readonly {
                    0o444u32
                } else {
                    0o644u32
                }
            } else {
                mode & 0o777
            }
        })
}

spec fn delivery_remembers(stages: Seq<DeliveryView>, events: Seq<DeliverEvent>, k: int) -> bool {
    let m = stages[k];
    let measured = |size: u64| exists|mode: u32| #[trigger]
        was_measured(stages, events, k, mode, size);
    &&& m.guest_path == stages[0].guest_path
    &&& m.host_path == stages[0].host_path
    &&& m.host == stages[0].host
    &&& m.max_file_bytes == stages[0].max_file_bytes
    &&& deliver::delivery_stands(m)
    &&& match m.stage {
        DeliverStageView::Requesting { mode, size } => was_measured(stages, events, k, mode, size),
        DeliverStageView::Reading(copy) => measured(copy.size as u64),
        DeliverStageView::Sending(copy, _) => measured(copy.size as u64),
        DeliverStageView::Padding(_, size, _) => measured(size),
        DeliverStageView::Awaiting(_, size) => measured(size),
        DeliverStageView::Over(Ok(sent)) => measured(sent) && was_taken(stages, events, k),
        _ => true,
    }
}

/// Whether the box said before some step that it has the file.
pub open spec fn was_taken(stages: Seq<DeliveryView>, events: Seq<DeliverEvent>, k: int) -> bool {
    exists|j: int|
        0 <= j < k && deliver::delivery_asks(stages[j]) is AwaitReply && #[trigger] events[j]
            == DeliverEvent::Replied(ReplyRead::Reply(FileReply::Put))
}

proof fn lemma_delivery_remembers(stages: Seq<DeliveryView>, events: Seq<DeliverEvent>, k: int)
    requires
        delivery_runs(stages, events),
        0 <= k <= events.len(),
    ensures
        delivery_remembers(stages, events, k),
    decreases k,
{
    if k > 0 {
        let j = k - 1;
        lemma_delivery_remembers(stages, events, j);
        let event = events[j];
        let m = stages[j];
        assert(forall|mode: u32, size: u64| #[trigger]
            was_measured(stages, events, j, mode, size) ==> was_measured(
                stages,
                events,
                k,
                mode,
                size,
            ));
        match m.stage {
            DeliverStageView::Measuring => {
                if let DeliverStageView::Requesting { mode, size } = stages[k].stage {
                    assert(was_measured(stages, events, k, mode, size));
                }
            },
            DeliverStageView::Requesting { mode, size } => {
                assert(was_measured(stages, events, k, mode, size));
            },
            DeliverStageView::Awaiting(sent, size) => {
                if let DeliverEvent::Replied(read) = event {
                    files_arrive_whole_or_not_at_all(m.host_path, read, sent, size);
                    if stages[k].stage matches DeliverStageView::Over(Ok(_)) {
                        assert(events[j] == DeliverEvent::Replied(
                            ReplyRead::Reply(FileReply::Put),
                        ));
                        assert(was_taken(stages, events, k));
                    }
                }
            },
            DeliverStageView::Over(Ok(_)) => {
                assert(was_taken(stages, events, j));
            },
            _ => {},
        }
    }
}

/// A delivery opens the file that was typed, and asks the box to make one at the
/// path that was typed, of the size the file was found to have and with its
/// rights, and no more than those. It ends well only after the box said that it
/// has the file.
pub proof fn deliveries_ask_for_the_file_that_was_found(
    stages: Seq<DeliveryView>,
    events: Seq<DeliverEvent>,
    k: int,
)
    requires
        delivery_runs(stages, events),
        0 <= k <= events.len(),
    ensures
        match deliver::delivery_asks(stages[k]) {
            DeliverStepView::Open(path) => path == stages[0].host_path,
            DeliverStepView::Request { path, mode, size } => path == stages[0].guest_path
                && was_measured(stages, events, k, mode, size),
            _ => true,
        },
        stages[k].stage matches DeliverStageView::Over(Ok(sent)) ==> was_taken(stages, events, k)
            && exists|mode: u32| #[trigger] was_measured(stages, events, k, mode, sent),
{
    lemma_delivery_remembers(stages, events, k);
}

/// What was read of the file and sent before some step.
pub open spec fn wire_at(stages: Seq<DeliveryView>, events: Seq<DeliverEvent>, k: int) -> Wire
    decreases k,
{
    if k <= 0 {
        Wire { read: Seq::empty(), sent: Seq::empty() }
    } else {
        deliver::wire_after(
            wire_at(stages, events, k - 1),
            deliver::delivery_asks(stages[k - 1]),
            events[k - 1],
        )
    }
}

/// What a box has been sent once a delivery ended well is what was read of the
/// file, byte for byte and as long as the file was found to be.
pub proof fn delivered_files_hold_what_was_read(
    stages: Seq<DeliveryView>,
    events: Seq<DeliverEvent>,
    k: int,
)
    requires
        delivery_runs(stages, events),
        0 <= k <= events.len(),
    ensures
        deliver::delivery_holds(stages[k], wire_at(stages, events, k)),
        stages[k].stage matches DeliverStageView::Over(Ok(_)) ==> {
            let wire = wire_at(stages, events, k);
            &&& wire.sent == wire.read
            &&& exists|mode: u32| #[trigger]
                was_measured(stages, events, k, mode, wire.sent.len() as u64)
        },
    decreases k,
{
    lemma_delivery_remembers(stages, events, k);
    if k > 0 {
        delivered_files_hold_what_was_read(stages, events, k - 1);
        lemma_delivery_remembers(stages, events, k - 1);
        let event = events[k - 1];
        deliver::deliveries_keep_their_promise(
            stages[k - 1],
            event,
            wire_at(stages, events, k - 1),
        );
    }
    if let DeliverStageView::Over(Ok(sent)) = stages[k].stage {
        let mode = choose|mode: u32| #[trigger] was_measured(stages, events, k, mode, sent);
        assert(wire_at(stages, events, k).sent.len() as u64 == sent);
        assert(was_measured(
            stages,
            events,
            k,
            mode,
            wire_at(stages, events, k).sent.len() as u64,
        ));
    }
}

/// A read is taken as far as it was asked for, and all of it where it brings no
/// more.
pub proof fn reads_are_taken_as_far_as_asked(chunk: Seq<u8>, most: nat)
    ensures
        chunk.len() <= most ==> bytes::at_most(chunk, most) == chunk,
        chunk.len() > most ==> bytes::at_most(chunk, most).len() == most && forall|i: int|
            0 <= i < most ==> bytes::at_most(chunk, most)[i] == chunk[i],
{
}

/// A copy reads on as long as bytes are missing and the source has not ended,
/// each time as much as is missing, up to 16 KiB.
pub proof fn copies_read_all_there_is(m: CopyView)
    requires
        m.sent < m.size,
    ensures
        put_get::next_chunk(m) <= 16384,
        m.size - m.sent <= 16384 ==> put_get::next_chunk(m) == m.size - m.sent,
        m.size - m.sent > 16384 ==> put_get::next_chunk(m) == 16384,
{
}

/// A reply is in order unless it did not come, could not be read, or is a
/// refusal of the box; what the box says to that is passed on as it can be
/// printed.
pub proof fn replies_are_in_order_or_not(read: ReplyRead, said: Seq<char>)
    ensures
        put_get::reply_trouble(read) is None <==> match read {
            ReplyRead::Reply(reply) => !(reply is Refused),
            _ => false,
        },
        match read {
            ReplyRead::Reply(FileReply::Refused(why)) => why@ == said && said.len() <= 512
                ==> put_get::reply_trouble(read) == Some(
                seq!["guest: "@ + render::printable(said)],
            ),
            _ => true,
        },
{
}

/// A file that is put into a box goes on as long as all goes well: it is
/// opened and measured, the box is asked with its mode and size, all of it is
/// read and sent, and it is done once the box says so.
pub proof fn deliveries_go_on_while_all_goes_well(
    m: DeliveryView,
    copy: CopyView,
    chunk: Vec<u8>,
    mode: u32,
    size: u64,
)
    requires
        copy.sent < copy.size <= u64::MAX,
        !copy.ended,
        0 < chunk@.len() <= put_get::next_chunk(copy),
        size <= m.max_file_bytes,
        size > 0,
    ensures
        ({
            let at = |stage: DeliverStageView| DeliveryView { stage, ..m };
            let after = |stage: DeliverStageView, event: DeliverEvent|
                deliver::delivery_asks(deliver::delivery_after(at(stage), event));
            let more = CopyView { sent: copy.sent + chunk@.len(), ..copy };
            &&& deliver::delivery_asks(at(DeliverStageView::Opening)) == DeliverStepView::Open(
                m.host_path,
            )
            &&& after(DeliverStageView::Opening, DeliverEvent::Done) == DeliverStepView::Measure
            &&& m.host != HostOs::Windows ==> after(
                DeliverStageView::Measuring,
                DeliverEvent::Measured { is_dir: false, size, mode, readonly: false },
            ) == (DeliverStepView::Request { path: m.guest_path, mode: mode & 0o777, size })
            &&& after(DeliverStageView::Requesting { mode, size }, DeliverEvent::Done)
                == DeliverStepView::Read(
                put_get::next_chunk(CopyView { size: size as nat, sent: 0, ended: false }),
            )
            &&& after(DeliverStageView::Reading(copy), DeliverEvent::Chunk(chunk))
                == DeliverStepView::Send(chunk@)
            &&& more.sent < more.size ==> after(
                DeliverStageView::Sending(copy, chunk@),
                DeliverEvent::Done,
            ) == DeliverStepView::Read(put_get::next_chunk(more))
            &&& more.sent == more.size ==> after(
                DeliverStageView::Sending(copy, chunk@),
                DeliverEvent::Done,
            ) == DeliverStepView::AwaitReply
            &&& deliver::delivery_after(
                at(DeliverStageView::Awaiting(size, size)),
                DeliverEvent::Replied(ReplyRead::Reply(FileReply::Put)),
            ).stage == DeliverStageView::Over(Ok(size))
        }),
{
    assert(bytes::at_most(chunk@, put_get::next_chunk(copy)) =~= chunk@);
}

} // verus!
