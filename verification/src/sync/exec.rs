//! Carrying out a plan: in which order, under which checks, and what is said
//! of it.

use crate::error::{self, Error, Refusal, refuse};
use crate::render::{self, escape_printable};
use crate::sync::plan::{self, ActionView, PlanAction};
use crate::text::{self, byte_len, spell};
use vstd::prelude::*;

verus! {

/// The phases of a run: directories are made, then files and links written,
/// then files adjusted, then what is extra removed, then directories adjusted.
pub open spec fn phase(action: ActionView) -> int {
    match action {
        ActionView::CreateDir { .. } => 0,
        ActionView::TransferFile { .. } => 1,
        ActionView::CreateSymlink { .. } => 1,
        ActionView::UpdateFileMetadata { .. } => 2,
        ActionView::RemoveEntry { .. } => 3,
        ActionView::UpdateDirMetadata { .. } => 4,
        ActionView::Skip { .. } => 5,
    }
}

/// The actions of one phase, in their order.
pub open spec fn in_phase(actions: Seq<ActionView>, wanted: int) -> Seq<ActionView>
    decreases actions.len(),
{
    if actions.len() == 0 {
        Seq::empty()
    } else if phase(actions.last()) == wanted {
        in_phase(actions.drop_last(), wanted).push(actions.last())
    } else {
        in_phase(actions.drop_last(), wanted)
    }
}

/// Whether one action has to come before another by the bytes of its path:
/// the shorter first, or the longer first.
pub open spec fn comes_before(a: ActionView, b: ActionView, longest_first: bool) -> bool {
    if longest_first {
        text::utf8_len(plan::path_of(a)) > text::utf8_len(plan::path_of(b))
    } else {
        text::utf8_len(plan::path_of(a)) < text::utf8_len(plan::path_of(b))
    }
}

/// An action put among others in order, behind all that it need not precede.
pub open spec fn put_in_order(list: Seq<ActionView>, action: ActionView, longest_first: bool) -> Seq<
    ActionView,
>
    decreases list.len(),
{
    if list.len() > 0 && comes_before(action, list.last(), longest_first) {
        put_in_order(list.drop_last(), action, longest_first).push(list.last())
    } else {
        list.push(action)
    }
}

/// Actions by the length of their paths; those of one length keep their order.
pub open spec fn by_length(actions: Seq<ActionView>, longest_first: bool) -> Seq<ActionView>
    decreases actions.len(),
{
    if actions.len() == 0 {
        Seq::empty()
    } else {
        put_in_order(by_length(actions.drop_last(), longest_first), actions.last(), longest_first)
    }
}

/// A plan in the order it is carried out.
pub open spec fn scheduled(actions: Seq<ActionView>) -> Seq<ActionView> {
    by_length(in_phase(actions, 0), false) + in_phase(actions, 1) + in_phase(actions, 2)
        + by_length(in_phase(actions, 3), true) + by_length(in_phase(actions, 4), true)
}

pub fn copy_action(action: &PlanAction) -> (copy: PlanAction)
    ensures
        copy@ == action@,
{
    match action {
        PlanAction::CreateDir { rel_path, mode } => PlanAction::CreateDir {
            rel_path: rel_path.as_str().to_owned(),
            mode: *mode,
        },
        PlanAction::TransferFile { rel_path, size, mode, mtime_secs, mtime_nanos } => PlanAction::TransferFile {
            rel_path: rel_path.as_str().to_owned(),
            size: *size,
            mode: *mode,
            mtime_secs: *mtime_secs,
            mtime_nanos: *mtime_nanos,
        },
        PlanAction::CreateSymlink { rel_path, target } => PlanAction::CreateSymlink {
            rel_path: rel_path.as_str().to_owned(),
            target: target.as_str().to_owned(),
        },
        PlanAction::UpdateFileMetadata { rel_path, mode, mtime_secs, mtime_nanos } => PlanAction::UpdateFileMetadata {
            rel_path: rel_path.as_str().to_owned(),
            mode: *mode,
            mtime_secs: *mtime_secs,
            mtime_nanos: *mtime_nanos,
        },
        PlanAction::UpdateDirMetadata { rel_path, mode, mtime_secs, mtime_nanos } => PlanAction::UpdateDirMetadata {
            rel_path: rel_path.as_str().to_owned(),
            mode: *mode,
            mtime_secs: *mtime_secs,
            mtime_nanos: *mtime_nanos,
        },
        PlanAction::RemoveEntry { rel_path, is_dir } => PlanAction::RemoveEntry {
            rel_path: rel_path.as_str().to_owned(),
            is_dir: *is_dir,
        },
        PlanAction::Skip { rel_path } => PlanAction::Skip {
            rel_path: rel_path.as_str().to_owned(),
        },
    }
}

pub fn rel_path_of(action: &PlanAction) -> (path: &str)
    ensures
        path@ == plan::path_of(action@),
{
    match action {
        PlanAction::CreateDir { rel_path, .. } => rel_path.as_str(),
        PlanAction::TransferFile { rel_path, .. } => rel_path.as_str(),
        PlanAction::CreateSymlink { rel_path, .. } => rel_path.as_str(),
        PlanAction::UpdateFileMetadata { rel_path, .. } => rel_path.as_str(),
        PlanAction::UpdateDirMetadata { rel_path, .. } => rel_path.as_str(),
        PlanAction::RemoveEntry { rel_path, .. } => rel_path.as_str(),
        PlanAction::Skip { rel_path } => rel_path.as_str(),
    }
}

fn phase_of(action: &PlanAction) -> (n: u8)
    ensures
        n == phase(action@),
{
    match action {
        PlanAction::CreateDir { .. } => 0,
        PlanAction::TransferFile { .. } => 1,
        PlanAction::CreateSymlink { .. } => 1,
        PlanAction::UpdateFileMetadata { .. } => 2,
        PlanAction::RemoveEntry { .. } => 3,
        PlanAction::UpdateDirMetadata { .. } => 4,
        PlanAction::Skip { .. } => 5,
    }
}

fn select_phase(actions: &Vec<PlanAction>, wanted: u8) -> (selected: Vec<PlanAction>)
    ensures
        text::views(selected@) == in_phase(text::views(actions@), wanted as int),
{
    let ghost all = text::views(actions@);
    let mut selected: Vec<PlanAction> = Vec::new();
    let mut i: usize = 0;
    proof {
        assert(text::views(selected@) =~= Seq::empty());
        assert(all.take(0) =~= Seq::empty());
    }
    while i < actions.len()
        invariant
            i <= actions@.len(),
            all == text::views(actions@),
            text::views(selected@) == in_phase(all.take(i as int), wanted as int),
        decreases actions.len() - i,
    {
        let ghost before = selected@;
        proof {
            assert(all.take(i + 1).drop_last() =~= all.take(i as int));
            assert(all.take(i + 1).last() == actions@[i as int]@);
        }
        if phase_of(&actions[i]) == wanted {
            selected.push(copy_action(&actions[i]));
            proof {
                assert(text::views(selected@) =~= text::views(before).push(actions@[i as int]@));
            }
        }
        i = i + 1;
    }
    proof {
        assert(all.take(i as int) =~= all);
    }
    selected
}

proof fn lemma_put_in_order(list: Seq<ActionView>, action: ActionView, longest_first: bool, at: int)
    requires
        0 <= at <= list.len(),
        forall|i: int|
            at <= i < list.len() ==> comes_before(action, #[trigger] list[i], longest_first),
        at > 0 ==> !comes_before(action, list[at - 1], longest_first),
    ensures
        put_in_order(list, action, longest_first) == list.insert(at, action),
    decreases list.len() - at,
{
    if at < list.len() {
        assert(comes_before(action, list[list.len() - 1], longest_first));
        lemma_put_in_order(list.drop_last(), action, longest_first, at);
        assert(list.drop_last().insert(at, action).push(list.last()) =~= list.insert(at, action));
    } else {
        assert(list.insert(at, action) =~= list.push(action));
    }
}

fn must_precede(a: &PlanAction, b: &PlanAction, longest_first: bool) -> (yes: bool)
    ensures
        yes == comes_before(a@, b@, longest_first),
{
    let first: usize = byte_len(rel_path_of(a));
    let second: usize = byte_len(rel_path_of(b));
    if longest_first {
        first > second
    } else {
        first < second
    }
}

fn sort_by_length(actions: &Vec<PlanAction>, longest_first: bool) -> (sorted: Vec<PlanAction>)
    ensures
        text::views(sorted@) == by_length(text::views(actions@), longest_first),
{
    let ghost all = text::views(actions@);
    let mut sorted: Vec<PlanAction> = Vec::new();
    let mut i: usize = 0;
    proof {
        assert(text::views(sorted@) =~= Seq::empty());
        assert(all.take(0) =~= Seq::empty());
    }
    while i < actions.len()
        invariant
            i <= actions@.len(),
            all == text::views(actions@),
            text::views(sorted@) == by_length(all.take(i as int), longest_first),
        decreases actions.len() - i,
    {
        let ghost before = text::views(sorted@);
        let ghost action = actions@[i as int]@;
        let mut at: usize = sorted.len();
        while at > 0 && must_precede(&actions[i], &sorted[at - 1], longest_first)
            invariant
                i < actions@.len(),
                action == actions@[i as int]@,
                at <= sorted@.len(),
                before == text::views(sorted@),
                forall|j: int|
                    at <= j < before.len() ==> comes_before(
                        action,
                        #[trigger] before[j],
                        longest_first,
                    ),
            decreases at,
        {
            at = at - 1;
        }
        sorted.insert(at, copy_action(&actions[i]));
        proof {
            assert(all.take(i + 1).drop_last() =~= all.take(i as int));
            assert(all.take(i + 1).last() == action);
            lemma_put_in_order(before, action, longest_first, at as int);
            assert(text::views(sorted@) =~= before.insert(at as int, action));
        }
        i = i + 1;
    }
    proof {
        assert(all.take(i as int) =~= all);
    }
    sorted
}

fn append_all(list: &mut Vec<PlanAction>, more: &Vec<PlanAction>)
    ensures
        text::views(final(list)@) == text::views(old(list)@) + text::views(more@),
{
    let ghost start = text::views(list@);
    let mut i: usize = 0;
    proof {
        assert(text::views(list@) =~= start + text::views(more@).take(0));
    }
    while i < more.len()
        invariant
            i <= more@.len(),
            text::views(list@) == start + text::views(more@).take(i as int),
        decreases more.len() - i,
    {
        let ghost before = text::views(list@);
        list.push(copy_action(&more[i]));
        proof {
            assert(text::views(list@) =~= before.push(more@[i as int]@));
            assert(text::views(list@) =~= start + text::views(more@).take(i + 1));
        }
        i = i + 1;
    }
    proof {
        assert(text::views(more@).take(i as int) =~= text::views(more@));
    }
}

/// The actions of a plan in the order they are carried out.
pub fn schedule(actions: &Vec<PlanAction>) -> (steps: Vec<PlanAction>)
    ensures
        text::views(steps@) == scheduled(text::views(actions@)),
{
    let mut steps = sort_by_length(&select_phase(actions, 0), false);
    append_all(&mut steps, &select_phase(actions, 1));
    append_all(&mut steps, &select_phase(actions, 2));
    append_all(&mut steps, &sort_by_length(&select_phase(actions, 3), true));
    append_all(&mut steps, &sort_by_length(&select_phase(actions, 4), true));
    steps
}

/// What a run did.
#[derive(Debug, Clone, Copy, PartialEq, Eq, Structural)]
pub struct SyncStats {
    pub copied_count: usize,
    pub metadata_updated_count: usize,
    pub deleted_count: usize,
    pub skipped_count: usize,
    pub transferred_bytes: u64,
}

/// The bytes of the files a list of actions transfers.
pub open spec fn bytes_of(actions: Seq<ActionView>) -> nat
    decreases actions.len(),
{
    if actions.len() == 0 {
        0
    } else {
        bytes_of(actions.drop_last()) + (match actions.last() {
            ActionView::TransferFile { size, .. } => size as nat,
            _ => 0,
        })
    }
}

/// What a list of actions does once all of it is done.
pub open spec fn stats_of(actions: Seq<ActionView>) -> SyncStats {
    SyncStats {
        copied_count: in_phase(actions, 1).len() as usize,
        metadata_updated_count: in_phase(actions, 2).len() as usize,
        deleted_count: in_phase(actions, 3).len() as usize,
        skipped_count: in_phase(actions, 5).len() as usize,
        transferred_bytes: bytes_of(actions) as u64,
    }
}

proof fn lemma_phase_len(actions: Seq<ActionView>, wanted: int)
    ensures
        in_phase(actions, wanted).len() <= actions.len(),
    decreases actions.len(),
{
    if actions.len() > 0 {
        lemma_phase_len(actions.drop_last(), wanted);
    }
}

proof fn lemma_bytes_grow(actions: Seq<ActionView>, n: int)
    requires
        0 <= n <= actions.len(),
    ensures
        bytes_of(actions.take(n)) <= bytes_of(actions),
    decreases actions.len() - n,
{
    if n < actions.len() {
        assert(actions.take(n + 1).drop_last() =~= actions.take(n));
        lemma_bytes_grow(actions, n + 1);
    } else {
        assert(actions.take(n) =~= actions);
    }
}

pub fn planned_stats(actions: &Vec<PlanAction>) -> (stats: SyncStats)
    requires
        bytes_of(text::views(actions@)) <= u64::MAX,
    ensures
        stats == stats_of(text::views(actions@)),
{
    let ghost all = text::views(actions@);
    let mut stats = SyncStats {
        copied_count: 0,
        metadata_updated_count: 0,
        deleted_count: 0,
        skipped_count: 0,
        transferred_bytes: 0,
    };
    let mut i: usize = 0;
    proof {
        assert(all.take(0) =~= Seq::empty());
    }
    while i < actions.len()
        invariant
            i <= actions@.len(),
            all == text::views(actions@),
            bytes_of(all) <= u64::MAX,
            stats.copied_count == in_phase(all.take(i as int), 1).len() <= i,
            stats.metadata_updated_count == in_phase(all.take(i as int), 2).len() <= i,
            stats.deleted_count == in_phase(all.take(i as int), 3).len() <= i,
            stats.skipped_count == in_phase(all.take(i as int), 5).len() <= i,
            stats.transferred_bytes == bytes_of(all.take(i as int)),
        decreases actions.len() - i,
    {
        proof {
            assert(all.take(i + 1).drop_last() =~= all.take(i as int));
            assert(all.take(i + 1).last() == actions@[i as int]@);
            lemma_bytes_grow(all, i + 1);
        }
        match &actions[i] {
            PlanAction::TransferFile { size, .. } => {
                stats.copied_count = stats.copied_count + 1;
                stats.transferred_bytes = stats.transferred_bytes + *size;
            },
            PlanAction::CreateSymlink { .. } => {
                stats.copied_count = stats.copied_count + 1;
            },
            PlanAction::UpdateFileMetadata { .. } => {
                stats.metadata_updated_count = stats.metadata_updated_count + 1;
            },
            PlanAction::RemoveEntry { .. } => {
                stats.deleted_count = stats.deleted_count + 1;
            },
            PlanAction::Skip { .. } => {
                stats.skipped_count = stats.skipped_count + 1;
            },
            _ => {},
        }
        i = i + 1;
    }
    proof {
        assert(all.take(i as int) =~= all);
    }
    stats
}

/// What a rehearsal says of one action.
pub open spec fn dry_run_line(action: ActionView) -> Seq<char> {
    match action {
        ActionView::CreateDir { rel_path, .. } => "terra: [dry-run] mkdir "@ + render::printable(rel_path),
        ActionView::TransferFile { rel_path, size, .. } => "terra: [dry-run] copy "@ + render::printable(
            rel_path,
        ) + " ("@ + text::decimal(size as nat) + " bytes)"@,
        ActionView::CreateSymlink { rel_path, target } => "terra: [dry-run] symlink "@ + render::printable(
            rel_path,
        ) + " -> "@ + render::printable(target),
        ActionView::UpdateFileMetadata { rel_path, .. } => "terra: [dry-run] chmod/mtime "@
            + render::printable(rel_path),
        ActionView::RemoveEntry { rel_path, is_dir } => if is_dir {
            "terra: [dry-run] rm dir "@ + render::printable(rel_path)
        } else {
            "terra: [dry-run] rm file "@ + render::printable(rel_path)
        },
        ActionView::UpdateDirMetadata { rel_path, .. } => "terra: [dry-run] dir mtime "@
            + render::printable(rel_path),
        ActionView::Skip { .. } => Seq::empty(),
    }
}

pub fn format_dry_run_line(action: &PlanAction) -> (line: String)
    ensures
        line@ == dry_run_line(action@),
{
    let shown = escape_printable(rel_path_of(action));
    let mut line: String = String::new();
    match action {
        PlanAction::CreateDir { .. } => {
            line = "terra: [dry-run] mkdir ".to_owned();
            line.append(shown.as_str());
        },
        PlanAction::TransferFile { size, .. } => {
            line = "terra: [dry-run] copy ".to_owned();
            line.append(shown.as_str());
            line.append(" (");
            line.append(spell(*size).as_str());
            line.append(" bytes)");
        },
        PlanAction::CreateSymlink { target, .. } => {
            line = "terra: [dry-run] symlink ".to_owned();
            line.append(shown.as_str());
            line.append(" -> ");
            line.append(escape_printable(target.as_str()).as_str());
        },
        PlanAction::UpdateFileMetadata { .. } => {
            line = "terra: [dry-run] chmod/mtime ".to_owned();
            line.append(shown.as_str());
        },
        PlanAction::RemoveEntry { is_dir, .. } => {
            if *is_dir {
                line = "terra: [dry-run] rm dir ".to_owned();
            } else {
                line = "terra: [dry-run] rm file ".to_owned();
            }
            line.append(shown.as_str());
        },
        PlanAction::UpdateDirMetadata { .. } => {
            line = "terra: [dry-run] dir mtime ".to_owned();
            line.append(shown.as_str());
        },
        PlanAction::Skip { .. } => {},
    }
    line
}

/// What a rehearsal says, one line for each step.
pub fn dry_run_report(steps: &Vec<PlanAction>) -> (lines: Vec<String>)
    ensures
        text::texts(lines@) == Seq::new(steps@.len(), |i: int| dry_run_line(steps@[i]@)),
{
    let ghost expected = Seq::new(steps@.len(), |i: int| dry_run_line(steps@[i]@));
    let mut lines: Vec<String> = Vec::new();
    let mut i: usize = 0;
    proof {
        assert(text::texts(lines@) =~= expected.take(0));
    }
    while i < steps.len()
        invariant
            i <= steps@.len(),
            expected == Seq::new(steps@.len(), |i: int| dry_run_line(steps@[i]@)),
            text::texts(lines@) == expected.take(i as int),
        decreases steps.len() - i,
    {
        let ghost before = lines@;
        lines.push(format_dry_run_line(&steps[i]));
        proof {
            crate::text::lemma_texts_push(before, lines@.last());
            assert(expected.take(i + 1) =~= expected.take(i as int).push(expected[i as int]));
        }
        i = i + 1;
    }
    proof {
        assert(expected.take(i as int) =~= expected);
    }
    lines
}

/// What is said once a run is over.
pub open spec fn result_line(
    from: Seq<char>,
    to: Seq<char>,
    stats: SyncStats,
    is_dry_run: bool,
    is_single_file: bool,
) -> Seq<char> {
    if is_dry_run {
        "terra: [dry-run] sync "@ + render::printable(from) + " -> "@ + render::printable(to) + " ("@ + text::decimal(
            stats.copied_count as nat,
        ) + " planned copies, "@ + text::decimal(stats.transferred_bytes as nat) + " estimated bytes, "@
            + text::decimal(stats.deleted_count as nat) + " planned deletes)"@
    } else if is_single_file && stats.copied_count == 1 && stats.deleted_count == 0 {
        "terra: copied "@ + render::printable(from) + " -> "@ + render::printable(to) + " ("@ + text::decimal(
            stats.transferred_bytes as nat,
        ) + " bytes)"@
    } else {
        "terra: sync "@ + render::printable(from) + " -> "@ + render::printable(to) + " ("@ + text::decimal(
            stats.copied_count as nat,
        ) + " copied, "@ + text::decimal(stats.transferred_bytes as nat) + " bytes, "@ + text::decimal(
            stats.metadata_updated_count as nat,
        ) + " metadata updated, "@ + text::decimal(stats.deleted_count as nat) + " deleted, "@ + text::decimal(
            stats.skipped_count as nat,
        ) + " skipped)"@
    }
}

pub fn report_result(
    from: &str,
    to: &str,
    stats: &SyncStats,
    is_dry_run: bool,
    is_single_file: bool,
) -> (line: String)
    ensures
        line@ == result_line(from@, to@, *stats, is_dry_run, is_single_file),
{
    let is_copy = !is_dry_run && is_single_file && stats.copied_count == 1 && stats.deleted_count
        == 0;
    let mut line: String = if is_dry_run {
        "terra: [dry-run] sync ".to_owned()
    } else if is_copy {
        "terra: copied ".to_owned()
    } else {
        "terra: sync ".to_owned()
    };
    line.append(escape_printable(from).as_str());
    line.append(" -> ");
    line.append(escape_printable(to).as_str());
    line.append(" (");
    if is_copy {
        line.append(spell(stats.transferred_bytes).as_str());
        line.append(" bytes)");
        return line;
    }
    line.append(spell(stats.copied_count as u64).as_str());
    if is_dry_run {
        line.append(" planned copies, ");
        line.append(spell(stats.transferred_bytes).as_str());
        line.append(" estimated bytes, ");
        line.append(spell(stats.deleted_count as u64).as_str());
        line.append(" planned deletes)");
    } else {
        line.append(" copied, ");
        line.append(spell(stats.transferred_bytes).as_str());
        line.append(" bytes, ");
        line.append(spell(stats.metadata_updated_count as u64).as_str());
        line.append(" metadata updated, ");
        line.append(spell(stats.deleted_count as u64).as_str());
        line.append(" deleted, ");
        line.append(spell(stats.skipped_count as u64).as_str());
        line.append(" skipped)");
    }
    line
}

/// What a file is known by between planning and transfer.
#[derive(Debug, Clone, Copy, PartialEq, Eq, Structural)]
pub struct FileFacts {
    pub size: u64,
    pub mode: u32,
    pub mtime_secs: i64,
    pub mtime_nanos: u32,
}

/// Refuses a host file that is no longer what was planned for, or too large.
pub open spec fn host_source_verdict(
    path: Seq<char>,
    is_file: bool,
    found: FileFacts,
    planned: FileFacts,
    max_file_bytes: u64,
) -> Result<(), Refusal> {
    if !is_file || found != planned {
        Err(error::refusal("host source changed since planning"@))
    } else if found.size > max_file_bytes {
        Err(
            error::refusal(
                "file "@ + path + " is "@ + text::decimal(found.size as nat) + " bytes, past the "@
                    + text::decimal((max_file_bytes >> 30) as nat) + " GiB sync limit"@,
            ),
        )
    } else {
        Ok(())
    }
}

pub fn check_host_source(
    path: &str,
    is_file: bool,
    found: FileFacts,
    planned: FileFacts,
    max_file_bytes: u64,
) -> (verdict: Result<(), Error>)
    ensures
        error::outcome(verdict) == host_source_verdict(path@, is_file, found, planned, max_file_bytes),
{
    if !(is_file && found == planned) {
        return Err(refuse("host source changed since planning"));
    }
    if found.size > max_file_bytes {
        let mut message: String = "file ".to_owned();
        message.append(path);
        message.append(" is ");
        message.append(spell(found.size).as_str());
        message.append(" bytes, past the ");
        message.append(spell(max_file_bytes >> 30).as_str());
        message.append(" GiB sync limit");
        return Err(Error::new(message));
    }
    Ok(())
}

/// Refuses a file the box announces otherwise than planned, or too large.
pub open spec fn guest_source_verdict(found: FileFacts, planned: FileFacts, max_file_bytes: u64) -> Result<
    (),
    Refusal,
> {
    if (FileFacts { mode: found.mode & 0o777, ..found }) != planned {
        Err(error::refusal("guest file metadata changed since planning; retry with a quiet source"@))
    } else if found.size > max_file_bytes {
        Err(
            error::refusal(
                "remote file is "@ + text::decimal(found.size as nat) + " bytes, past the "@ + text::decimal(
                    (max_file_bytes >> 30) as nat,
                ) + " GiB sync limit"@,
            ),
        )
    } else {
        Ok(())
    }
}

pub fn check_guest_source(found: FileFacts, planned: FileFacts, max_file_bytes: u64) -> (verdict: Result<
    (),
    Error,
>)
    ensures
        error::outcome(verdict) == guest_source_verdict(found, planned, max_file_bytes),
{
    let announced = FileFacts {
        size: found.size,
        mode: found.mode & 0o777,
        mtime_secs: found.mtime_secs,
        mtime_nanos: found.mtime_nanos,
    };
    if announced != planned {
        return Err(refuse("guest file metadata changed since planning; retry with a quiet source"));
    }
    if found.size > max_file_bytes {
        let mut message: String = "remote file is ".to_owned();
        message.append(spell(found.size).as_str());
        message.append(" bytes, past the ");
        message.append(spell(max_file_bytes >> 30).as_str());
        message.append(" GiB sync limit");
        return Err(Error::new(message));
    }
    Ok(())
}

/// Refuses to change the metadata of a link, or of a file that other names
/// share.
pub open spec fn metadata_update_verdict(
    path: Seq<char>,
    is_symlink: bool,
    is_file: bool,
    link_count: u64,
) -> Result<(), Refusal> {
    if is_symlink {
        Err(error::refusal("cannot update symlink metadata"@))
    } else if is_file && link_count > 1 {
        Err(
            error::refusal(
                "cannot update metadata of hard-linked file "@ + path
                    + "; replace it with an independent copy before syncing"@,
            ),
        )
    } else {
        Ok(())
    }
}

pub fn check_metadata_update(path: &str, is_symlink: bool, is_file: bool, link_count: u64) -> (
    verdict: Result<(), Error>)
    ensures
        error::outcome(verdict) == metadata_update_verdict(path@, is_symlink, is_file, link_count),
{
    if is_symlink {
        return Err(refuse("cannot update symlink metadata"));
    }
    if is_file && link_count > 1 {
        let mut message: String = "cannot update metadata of hard-linked file ".to_owned();
        message.append(path);
        message.append("; replace it with an independent copy before syncing");
        return Err(Error::new(message));
    }
    Ok(())
}

/// A file on its way: how large it is, and how much of it has passed.
#[derive(Debug)]
pub struct FileTransfer {
    size: u64,
    done: u64,
}

impl FileTransfer {
    pub closed spec fn size(&self) -> u64 {
        self.size
    }

    pub closed spec fn done(&self) -> u64 {
        self.done
    }

    #[verifier::type_invariant]
    spec fn wf(self) -> bool {
        self.done <= self.size
    }

    pub fn new(size: u64) -> (transfer: FileTransfer)
        ensures
            transfer.size() == size,
            transfer.done() == 0,
    {
        FileTransfer { size, done: 0 }
    }

    pub fn is_complete(&self) -> (yes: bool)
        ensures
            yes == (self.done() == self.size()),
            self.done() <= self.size(),
    {
        proof {
            use_type_invariant(self);
        }
        self.done == self.size
    }

    /// How many bytes to take next into a buffer: never more than are left.
    pub fn want(&self, capacity: usize) -> (n: usize)
        ensures
            n == (if self.size() - self.done() < capacity {
                self.size() - self.done()
            } else {
                capacity as int
            }),
    {
        proof {
            use_type_invariant(self);
        }
        let left: u64 = self.size - self.done;
        if left < capacity as u64 {
            left as usize
        } else {
            capacity
        }
    }

    /// Counts the bytes a read brought; none before the end is a fault, told
    /// in the given words.
    fn count(&mut self, n: usize) -> (more: bool)
        requires
            n <= old(self).size() - old(self).done(),
        ensures
            final(self).size() == old(self).size(),
            final(self).done() == old(self).done() + n,
            more == (n > 0),
    {
        self.done = self.done + n as u64;
        n > 0
    }

    /// Counts what a read of the host file brought.
    pub fn sent(&mut self, n: usize, host_path: &str) -> (counted: Result<(), Error>)
        requires
            n <= old(self).size() - old(self).done(),
        ensures
            final(self).size() == old(self).size(),
            final(self).done() == old(self).done() + n,
            error::outcome(counted) == (if n > 0 {
                Ok(())
            } else {
                Err(
                    error::refusal(
                        host_path@ + " shrank while being transferred (read "@ + text::decimal(
                            old(self).done() as nat,
                        ) + " of "@ + text::decimal(old(self).size() as nat) + " bytes)"@,
                    ),
                )
            }),
    {
        let done: u64 = self.done;
        let size: u64 = self.size;
        if self.count(n) {
            return Ok(());
        }
        let mut message: String = host_path.to_owned();
        message.append(" shrank while being transferred (read ");
        message.append(spell(done).as_str());
        message.append(" of ");
        message.append(spell(size).as_str());
        message.append(" bytes)");
        Err(Error::new(message))
    }

    /// Counts what a read from the box brought.
    pub fn received(&mut self, n: usize, guest_rel_path: &str) -> (counted: Result<(), Error>)
        requires
            n <= old(self).size() - old(self).done(),
        ensures
            final(self).size() == old(self).size(),
            final(self).done() == old(self).done() + n,
            error::outcome(counted) == (if n > 0 {
                Ok(())
            } else {
                Err(
                    error::refusal(
                        "transfer of "@ + guest_rel_path@ + " ended after "@ + text::decimal(
                            old(self).done() as nat,
                        ) + " of "@ + text::decimal(old(self).size() as nat) + " promised bytes"@,
                    ),
                )
            }),
    {
        let done: u64 = self.done;
        let size: u64 = self.size;
        if self.count(n) {
            return Ok(());
        }
        let mut message: String = "transfer of ".to_owned();
        message.append(guest_rel_path);
        message.append(" ended after ");
        message.append(spell(done).as_str());
        message.append(" of ");
        message.append(spell(size).as_str());
        message.append(" promised bytes");
        Err(Error::new(message))
    }
}

/// Refuses a host file that was written to while it was sent; its times are
/// the same if `is_same_time`.
pub fn check_still_source(size: u64, size_after: u64, is_same_time: bool) -> (verdict: Result<
    (),
    Error,
>)
    ensures
        error::outcome(verdict) == (if size_after == size && is_same_time {
            Ok(())
        } else {
            Err(
                error::refusal("source changed while transferring; retry with a quiet source"@),
            )
        }),
{
    if size_after == size && is_same_time {
        return Ok(());
    }
    Err(refuse("source changed while transferring; retry with a quiet source"))
}

/// Refuses a directory to make where something else stands.
pub fn check_directory_to_make(is_dir: Option<bool>) -> (verdict: Result<(), Error>)
    ensures
        error::outcome(verdict) == (if is_dir == Some(false) {
            Err(error::refusal("destination directory is a file or symlink"@))
        } else {
            Ok(())
        }),
{
    match is_dir {
        Some(false) => Err(refuse("destination directory is a file or symlink")),
        _ => Ok(()),
    }
}

} // verus!
