//! What copying one file of a tree comes to, from its start to its end.

use crate::bytes;
use crate::error::Refusal;
use crate::sync::exec::{self, FileFacts};
use crate::sync::file_copy::{
    self, CopyEventView, CopyStepView, FileDownloadView, FileUploadView, ReceiveStageView, Received,
    SendStageView, Sent,
};
use crate::sync::run::RunEventView;
use vstd::prelude::*;

verus! {

/// A file being sent from its start on, and what came of each thing it asked for.
pub open spec fn upload_runs(stages: Seq<FileUploadView>, events: Seq<CopyEventView>) -> bool {
    &&& stages.len() == events.len() + 1
    &&& stages[0].stage == SendStageView::Requesting
    &&& forall|k: int|
        0 <= k < events.len() ==> stages[k + 1] == file_copy::upload_after(
            stages[k],
            #[trigger] events[k],
        )
}

/// Whether a step was done before some point.
pub open spec fn was_sent(
    stages: Seq<FileUploadView>,
    events: Seq<CopyEventView>,
    k: int,
    step: CopyStepView,
) -> bool {
    exists|j: int|
        0 <= j < k && file_copy::upload_asks(stages[j]) == step && #[trigger] events[j] is Done
}

spec fn upload_remembers(stages: Seq<FileUploadView>, events: Seq<CopyEventView>, k: int) -> bool {
    let m = stages[k];
    let request = CopyStepView::RequestWrite { rel_path: m.rel_path, facts: m.facts };
    let open = CopyStepView::Open(m.host_path);
    &&& m.host_path == stages[0].host_path
    &&& m.rel_path == stages[0].rel_path
    &&& m.facts == stages[0].facts
    &&& file_copy::upload_stands(m)
    &&& match m.stage {
        SendStageView::Requesting => true,
        SendStageView::Awaiting => was_sent(stages, events, k, request),
        SendStageView::Opening => was_sent(stages, events, k, request),
        SendStageView::Confirming => was_sent(stages, events, k, request) && was_sent(
            stages,
            events,
            k,
            open,
        ) && was_sent(stages, events, k, CopyStepView::Commit),
        SendStageView::Over(RunEventView::Done) => was_sent(stages, events, k, request) && was_sent(
            stages,
            events,
            k,
            open,
        ) && was_sent(stages, events, k, CopyStepView::Commit) && was_sent(
            stages,
            events,
            k,
            CopyStepView::AwaitSuccess,
        ),
        SendStageView::Over(_) => true,
        _ => was_sent(stages, events, k, request) && was_sent(stages, events, k, open),
    }
}

proof fn lemma_upload_remembers(stages: Seq<FileUploadView>, events: Seq<CopyEventView>, k: int)
    requires
        upload_runs(stages, events),
        0 <= k <= events.len(),
    ensures
        upload_remembers(stages, events, k),
    decreases k,
{
    if k > 0 {
        let j = k - 1;
        lemma_upload_remembers(stages, events, j);
        let event = events[j];
        assert(forall|step: CopyStepView| #[trigger]
            was_sent(stages, events, j, step) ==> was_sent(stages, events, k, step));
        if event is Done {
            assert(was_sent(stages, events, k, file_copy::upload_asks(stages[j])));
        }
    }
}

/// A file is sent under the path and with the size, mode and time that were
/// planned, and read where it was planned to be. It counts as sent only once the
/// box was told that it is all there and has said that it has it.
pub proof fn files_are_sent_as_planned(
    stages: Seq<FileUploadView>,
    events: Seq<CopyEventView>,
    k: int,
)
    requires
        upload_runs(stages, events),
        0 <= k <= events.len(),
    ensures
        match file_copy::upload_asks(stages[k]) {
            CopyStepView::RequestWrite { rel_path, facts } => rel_path == stages[0].rel_path && facts
                == stages[0].facts,
            CopyStepView::Open(path) => path == stages[0].host_path,
            _ => true,
        },
        stages[k].stage == SendStageView::Over(RunEventView::Done) ==> {
            &&& was_sent(
                stages,
                events,
                k,
                CopyStepView::RequestWrite {
                    rel_path: stages[0].rel_path,
                    facts: stages[0].facts,
                },
            )
            &&& was_sent(stages, events, k, CopyStepView::Open(stages[0].host_path))
            &&& was_sent(stages, events, k, CopyStepView::Commit)
            &&& was_sent(stages, events, k, CopyStepView::AwaitSuccess)
        },
{
    lemma_upload_remembers(stages, events, k);
}

/// What was read of the file and sent before some point.
pub open spec fn sent_by(stages: Seq<FileUploadView>, events: Seq<CopyEventView>, k: int) -> Sent
    decreases k,
{
    if k <= 0 {
        Sent { read: Seq::empty(), sent: Seq::empty(), unchanged: false, confirmed: false }
    } else {
        file_copy::sent_after(
            sent_by(stages, events, k - 1),
            file_copy::upload_asks(stages[k - 1]),
            events[k - 1],
            stages[0].facts.size,
        )
    }
}

/// A file that was sent arrived as it was read, byte for byte, as long as it was
/// planned to be, and had not changed by then.
pub proof fn sent_files_hold_what_was_read(
    stages: Seq<FileUploadView>,
    events: Seq<CopyEventView>,
    k: int,
)
    requires
        upload_runs(stages, events),
        0 <= k <= events.len(),
    ensures
        file_copy::upload_holds(stages[k], sent_by(stages, events, k)),
        stages[k].stage == SendStageView::Over(RunEventView::Done) ==> {
            let world = sent_by(stages, events, k);
            &&& world.sent == world.read
            &&& world.sent.len() == stages[0].facts.size
            &&& world.unchanged
            &&& world.confirmed
        },
    decreases k,
{
    lemma_upload_remembers(stages, events, k);
    if k > 0 {
        sent_files_hold_what_was_read(stages, events, k - 1);
        lemma_upload_remembers(stages, events, k - 1);
        let event = events[k - 1];
        file_copy::files_are_sent_whole(stages[k - 1], event, sent_by(stages, events, k - 1));
    }
}

/// A file being fetched from its start on, and what came of each thing it asked
/// for.
pub open spec fn download_runs(stages: Seq<FileDownloadView>, events: Seq<CopyEventView>) -> bool {
    &&& stages.len() == events.len() + 1
    &&& stages[0].stage == ReceiveStageView::Requesting
    &&& forall|k: int|
        0 <= k < events.len() ==> stages[k + 1] == file_copy::download_after(
            stages[k],
            #[trigger] events[k],
        )
}

/// Whether a step was done before some point.
pub open spec fn was_done(
    stages: Seq<FileDownloadView>,
    events: Seq<CopyEventView>,
    k: int,
    step: CopyStepView,
) -> bool {
    exists|j: int|
        0 <= j < k && file_copy::download_asks(stages[j]) == step && #[trigger] events[j] is Done
}

/// Whether a file is as it was planned, but for bits of its mode that no plan
/// knows of.
pub open spec fn is_as_planned(facts: FileFacts, planned: FileFacts) -> bool {
    &&& facts.size == planned.size
    &&& facts.mtime_secs == planned.mtime_secs
    &&& facts.mtime_nanos == planned.mtime_nanos
    &&& facts.mode & 0o777 == planned.mode
}

spec fn download_remembers(
    stages: Seq<FileDownloadView>,
    events: Seq<CopyEventView>,
    k: int,
) -> bool {
    let m = stages[k];
    let p = m.planned;
    let mode = CopyStepView::SetMode(p.mode & 0o755);
    let times = CopyStepView::SetTimes { secs: p.mtime_secs, nanos: p.mtime_nanos };
    let install = CopyStepView::Install(m.host_path);
    &&& m.host_path == stages[0].host_path
    &&& m.rel_path == stages[0].rel_path
    &&& m.planned == stages[0].planned
    &&& m.max_file_bytes == stages[0].max_file_bytes
    &&& file_copy::download_stands(m)
    &&& match m.stage {
        ReceiveStageView::Requesting | ReceiveStageView::Awaiting => true,
        ReceiveStageView::MakingParents(facts) => is_as_planned(facts, p),
        ReceiveStageView::Staging(facts) => is_as_planned(facts, p),
        ReceiveStageView::Copying(facts, _) => is_as_planned(facts, p),
        ReceiveStageView::Appending(facts, _, _) => is_as_planned(facts, p),
        ReceiveStageView::Resizing(facts) => is_as_planned(facts, p),
        ReceiveStageView::SettingMode(facts) => is_as_planned(facts, p),
        ReceiveStageView::Confirming(facts) => is_as_planned(facts, p) && was_done(
            stages,
            events,
            k,
            mode,
        ),
        ReceiveStageView::SettingTimes(facts) => is_as_planned(facts, p) && was_done(
            stages,
            events,
            k,
            mode,
        ),
        ReceiveStageView::Installing(facts) => is_as_planned(facts, p) && was_done(
            stages,
            events,
            k,
            mode,
        ) && was_done(stages, events, k, times),
        ReceiveStageView::Over(RunEventView::Done) => was_done(stages, events, k, mode) && was_done(
            stages,
            events,
            k,
            times,
        ) && was_done(stages, events, k, install),
        ReceiveStageView::Discarding(end) => !(end is Done),
        ReceiveStageView::Over(_) => true,
    }
}

proof fn lemma_same_rights(found: u32, planned: u32)
    requires
        found & 0o777 == planned,
    ensures
        found & 0o755 == planned & 0o755,
{
    assert(found & 0o777 == planned ==> found & 0o755 == planned & 0o755) by (bit_vector);
}

proof fn lemma_download_remembers(
    stages: Seq<FileDownloadView>,
    events: Seq<CopyEventView>,
    k: int,
)
    requires
        download_runs(stages, events),
        0 <= k <= events.len(),
    ensures
        download_remembers(stages, events, k),
    decreases k,
{
    if k > 0 {
        let j = k - 1;
        lemma_download_remembers(stages, events, j);
        let event = events[j];
        let m = stages[j];
        assert(forall|step: CopyStepView| #[trigger]
            was_done(stages, events, j, step) ==> was_done(stages, events, k, step));
        if event is Done {
            assert(was_done(stages, events, k, file_copy::download_asks(stages[j])));
        }
        if let CopyEventView::Announced(facts) = event {
            crate::sync::laws::guest_files_are_taken_as_planned(facts, m.planned, m.max_file_bytes);
        }
        if let ReceiveStageView::SettingMode(facts) = m.stage {
            lemma_same_rights(facts.mode, m.planned.mode);
        }
    }
}

/// A file is fetched from the path that was planned to the path that was planned,
/// and gets the length, the time and the rights that were, less those no fetched
/// file has. It counts as fetched only once all of that was done and it was put in
/// its place.
pub proof fn files_are_fetched_as_planned(
    stages: Seq<FileDownloadView>,
    events: Seq<CopyEventView>,
    k: int,
)
    requires
        download_runs(stages, events),
        0 <= k <= events.len(),
    ensures
        ({
            let planned = stages[0].planned;
            let host_path = stages[0].host_path;
            &&& match file_copy::download_asks(stages[k]) {
                CopyStepView::RequestRead { rel_path } => rel_path == stages[0].rel_path,
                CopyStepView::MakeParents(path) => path == host_path,
                CopyStepView::Stage(path) => path == host_path,
                CopyStepView::Install(path) => path == host_path,
                CopyStepView::Resize(size) => size == planned.size,
                CopyStepView::SetMode(mode) => mode == planned.mode & 0o755,
                CopyStepView::SetTimes { secs, nanos } => secs == planned.mtime_secs && nanos
                    == planned.mtime_nanos,
                _ => true,
            }
            &&& stages[k].stage == ReceiveStageView::Over(RunEventView::Done) ==> {
                &&& was_done(stages, events, k, CopyStepView::SetMode(planned.mode & 0o755))
                &&& was_done(
                    stages,
                    events,
                    k,
                    CopyStepView::SetTimes {
                        secs: planned.mtime_secs,
                        nanos: planned.mtime_nanos,
                    },
                )
                &&& was_done(stages, events, k, CopyStepView::Install(host_path))
            }
        }),
{
    lemma_download_remembers(stages, events, k);
    if let ReceiveStageView::SettingMode(facts) = stages[k].stage {
        lemma_same_rights(facts.mode, stages[k].planned.mode);
    }
}

/// The bytes that came and were put aside before some point.
pub open spec fn came_by(
    stages: Seq<FileDownloadView>,
    events: Seq<CopyEventView>,
    k: int,
) -> Seq<u8>
    decreases k,
{
    if k <= 0 {
        Seq::empty()
    } else {
        file_copy::bytes_after(
            came_by(stages, events, k - 1),
            file_copy::download_asks(stages[k - 1]),
            events[k - 1],
        )
    }
}

/// A file that is fetched is as it was until it is put in place, and then holds
/// the bytes that came, in their order, as many as were planned; and only once the
/// box had said that those are all.
pub proof fn fetched_files_hold_what_came(
    stages: Seq<FileDownloadView>,
    events: Seq<CopyEventView>,
    hosts: Seq<Received>,
    k: int,
)
    requires
        download_runs(stages, events),
        hosts.len() == stages.len(),
        forall|j: int|
            0 <= j < events.len() ==> file_copy::host_follows(
                hosts[j],
                file_copy::download_asks(stages[j]),
                #[trigger] events[j],
                hosts[j + 1],
            ),
        0 <= k <= events.len(),
    ensures
        file_copy::download_holds(stages[k], hosts[k], hosts[0].file, came_by(stages, events, k)),
        stages[k].stage == ReceiveStageView::Over(RunEventView::Done) ==> hosts[k].file == Some(
            came_by(stages, events, k),
        ) && came_by(stages, events, k).len() == stages[0].planned.size && hosts[k].confirmed,
        stages[k].stage != ReceiveStageView::Over(RunEventView::Done) ==> hosts[k].file
            == hosts[0].file,
    decreases k,
{
    lemma_download_remembers(stages, events, k);
    if k > 0 {
        fetched_files_hold_what_came(stages, events, hosts, k - 1);
        lemma_download_remembers(stages, events, k - 1);
        let event = events[k - 1];
        file_copy::files_are_replaced_whole(
            stages[k - 1],
            event,
            hosts[k - 1],
            hosts[k],
            hosts[0].file,
            came_by(stages, events, k - 1),
        );
    }
}

/// As much is asked for at a time as is left, unless that is more than one
/// step takes; never nothing while something is left.
pub proof fn copies_ask_for_what_is_left(size: u64, done: u64)
    requires
        done < size,
    ensures
        0 < file_copy::copy_wants(size, done) <= size - done,
        file_copy::copy_wants(size, done) == size - done || file_copy::copy_wants(size, done)
            == file_copy::FILE_CHUNK,
{
}

/// A file that is sent goes on as long as all goes well: the box is asked, the
/// file is opened, all of it is read and sent, it is measured again, committed,
/// and sent once the box confirms it.
pub proof fn sendings_go_on_while_all_goes_well(
    m: FileUploadView,
    done: u64,
    chunk: Seq<u8>,
)
    requires
        done < m.facts.size,
        0 < chunk.len() <= file_copy::copy_wants(m.facts.size, done),
    ensures
        ({
            let size = m.facts.size;
            let at = |stage: SendStageView| FileUploadView { stage, ..m };
            let after = |stage: SendStageView, event: CopyEventView|
                file_copy::upload_asks(file_copy::upload_after(at(stage), event));
            &&& after(SendStageView::Requesting, CopyEventView::Done) == CopyStepView::AwaitReady
            &&& after(SendStageView::Awaiting, CopyEventView::Done) == CopyStepView::Open(
                m.host_path,
            )
            &&& after(SendStageView::Opening, CopyEventView::Done) == CopyStepView::Read(
                file_copy::copy_wants(size, 0),
            )
            &&& after(SendStageView::Reading(done), CopyEventView::Chunk(chunk))
                == CopyStepView::Send(chunk)
            &&& done + chunk.len() < size ==> after(
                SendStageView::Sending(done, chunk),
                CopyEventView::Done,
            ) == CopyStepView::Read(file_copy::copy_wants(size, (done + chunk.len()) as u64))
            &&& done + chunk.len() == size ==> after(
                SendStageView::Sending(done, chunk),
                CopyEventView::Done,
            ) == CopyStepView::Measure
            &&& after(
                SendStageView::Measuring,
                CopyEventView::Measured { size_after: size, is_same_time: true },
            ) == CopyStepView::Commit
            &&& after(SendStageView::Committing, CopyEventView::Done) == CopyStepView::AwaitSuccess
            &&& file_copy::upload_after(
                at(SendStageView::Confirming),
                CopyEventView::Done,
            ).stage == SendStageView::Over(RunEventView::Done)
        }),
{
    assert(bytes::at_most(chunk, file_copy::copy_wants(m.facts.size, done)) =~= chunk);
}

/// An empty file is sent as well: there is nothing to read of it.
pub proof fn empty_files_are_sent(m: FileUploadView)
    requires
        m.facts.size == 0,
        m.stage is Opening,
    ensures
        file_copy::upload_asks(file_copy::upload_after(m, CopyEventView::Done))
            == CopyStepView::Measure,
{
}

/// What goes wrong ends the sending of a file, with why.
pub proof fn sendings_end_where_something_goes_wrong(
    m: FileUploadView,
    why: Refusal,
    size_after: u64,
    is_same_time: bool,
)
    requires
        !(m.stage is Over),
    ensures
        file_copy::upload_after(m, CopyEventView::Failed(why)).stage matches SendStageView::Over(
            RunEventView::Failed(said),
        ) && (said == why || said.len() == why.len() + 1 && said.skip(1) == why),
        m.stage is Reading ==> file_copy::upload_after(m, CopyEventView::Late).stage is Over,
        m.stage is Reading ==> file_copy::upload_after(
            m,
            CopyEventView::Chunk(Seq::empty()),
        ).stage is Over,
        m.stage is Measuring && !(size_after == m.facts.size && is_same_time)
            ==> file_copy::upload_after(
            m,
            CopyEventView::Measured { size_after, is_same_time },
        ).stage is Over,
{
    if let SendStageView::Over(RunEventView::Failed(said)) = file_copy::upload_after(
        m,
        CopyEventView::Failed(why),
    ).stage {
        if said != why {
            assert(said.skip(1) =~= why);
        }
    }
}

/// A file that is fetched goes on as long as all goes well: what the box
/// announces is what was planned, the directories above are made, all of it is
/// taken in beside its place, given its size and its mode, confirmed, given
/// its time and put in its place.
pub proof fn fetches_go_on_while_all_goes_well(
    m: FileDownloadView,
    facts: FileFacts,
    done: u64,
    chunk: Seq<u8>,
)
    requires
        done < facts.size,
        0 < chunk.len() <= file_copy::copy_wants(facts.size, done),
    ensures
        ({
            let at = |stage: ReceiveStageView| FileDownloadView { stage, ..m };
            let after = |stage: ReceiveStageView, event: CopyEventView|
                file_copy::download_asks(file_copy::download_after(at(stage), event));
            &&& after(ReceiveStageView::Requesting, CopyEventView::Done)
                == CopyStepView::AwaitReady
            &&& exec::guest_source_verdict(facts, m.planned, m.max_file_bytes) is Ok ==> after(
                ReceiveStageView::Awaiting,
                CopyEventView::Announced(facts),
            ) == CopyStepView::MakeParents(m.host_path)
            &&& after(ReceiveStageView::MakingParents(facts), CopyEventView::Done)
                == CopyStepView::Stage(m.host_path)
            &&& after(ReceiveStageView::Staging(facts), CopyEventView::Done)
                == CopyStepView::Receive(file_copy::copy_wants(facts.size, 0))
            &&& after(ReceiveStageView::Copying(facts, done), CopyEventView::Chunk(chunk))
                == CopyStepView::Append(chunk)
            &&& done + chunk.len() < facts.size ==> after(
                ReceiveStageView::Appending(facts, done, chunk),
                CopyEventView::Done,
            ) == CopyStepView::Receive(
                file_copy::copy_wants(facts.size, (done + chunk.len()) as u64),
            )
            &&& done + chunk.len() == facts.size ==> after(
                ReceiveStageView::Appending(facts, done, chunk),
                CopyEventView::Done,
            ) == CopyStepView::Resize(facts.size)
            &&& after(ReceiveStageView::SettingMode(facts), CopyEventView::Done)
                == CopyStepView::AwaitSuccess
            &&& after(ReceiveStageView::Confirming(facts), CopyEventView::Done)
                == CopyStepView::SetTimes { secs: facts.mtime_secs, nanos: facts.mtime_nanos }
            &&& after(ReceiveStageView::SettingTimes(facts), CopyEventView::Done)
                == CopyStepView::Install(m.host_path)
            &&& file_copy::download_after(
                at(ReceiveStageView::Installing(facts)),
                CopyEventView::Done,
            ).stage == ReceiveStageView::Over(RunEventView::Done)
        }),
{
    assert(bytes::at_most(chunk, file_copy::copy_wants(facts.size, done)) =~= chunk);
}

/// What goes wrong once something of a file was taken in has it discarded, and
/// ends the fetching with why.
pub proof fn fetches_discard_where_something_goes_wrong(
    m: FileDownloadView,
    facts: FileFacts,
    done: u64,
    why: Refusal,
)
    ensures
        ({
            let copying = FileDownloadView { stage: ReceiveStageView::Copying(facts, done), ..m };
            let failed = file_copy::download_after(copying, CopyEventView::Failed(why));
            let late = file_copy::download_after(copying, CopyEventView::Late);
            let short = file_copy::download_after(copying, CopyEventView::Chunk(Seq::empty()));
            &&& file_copy::download_asks(failed) == CopyStepView::Discard
            &&& file_copy::download_after(failed, CopyEventView::Done).stage
                == ReceiveStageView::Over(RunEventView::Failed(why))
            &&& file_copy::download_asks(late) == CopyStepView::Discard
            &&& file_copy::download_asks(short) == CopyStepView::Discard
            &&& file_copy::download_after(late, CopyEventView::Done).stage matches
                ReceiveStageView::Over(RunEventView::Failed(_))
            &&& file_copy::download_after(short, CopyEventView::Done).stage matches
                ReceiveStageView::Over(RunEventView::Failed(_))
        }),
{
}

} // verus!
