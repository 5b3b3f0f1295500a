//! What is compared, planned and refused when two trees are brought together.

use vstd::prelude::*;

use crate::error::Refusal;
use crate::host::HostOs;
use crate::ordered;
use crate::path;
use crate::sync::digest::{self, DigestEvent};
use crate::sync::entry::{RootStatus, SyncDirection, SyncEntryKind, SyncRules, TreeView};
use crate::sync::exec;
use crate::sync::links::{self, BranchView, Links, TargetsView};
use crate::sync::names::{self, Answers, HostNamesView};
use crate::sync::plan::{self, ActionView, PlanOptions};
use crate::sync::run::{self, RunEventView, RunStageView, RunStepView};
use crate::sync::security;
use crate::sync::session;
use crate::sync::transfer::{
    self, DownloadEventView, DownloadStageView, DownloadView, ReplyView, TransferStepView,
    UploadStageView, UploadView,
};
use crate::text;

verus! {

/// Whether, among the first entries of a tree, a file stands at a path at
/// which the other tree has a file of the same size.
pub open spec fn is_file_on_both_sides(
    source: TreeView,
    target: TreeView,
    n: int,
    path: Seq<char>,
) -> bool {
    exists|i: int|
        {
            &&& 0 <= i < n
            &&& (#[trigger] source[i]).0 == path
            &&& source[i].1.kind == SyncEntryKind::File
            &&& ordered::has_key(target, path)
            &&& ordered::lookup(target, path)->0.kind == SyncEntryKind::File
            &&& ordered::lookup(target, path)->0.size == source[i].1.size
        }
}

proof fn lemma_compared(
    source: TreeView,
    target: TreeView,
    n: int,
    options: PlanOptions,
    path: Seq<char>,
)
    requires
        0 <= n <= source.len(),
    ensures
        plan::compared_paths(source, target, n, options).contains(path) <==> options.is_checksum
            && is_file_on_both_sides(source, target, n, path),
    decreases n,
{
    if n > 0 {
        lemma_compared(source, target, n - 1, options, path);
        let before = plan::compared_paths(source, target, n - 1, options);
        let last = source[n - 1];
        if plan::to_compare(source, target, n - 1, options) {
            let after = before.push(last.0);
            assert(after == plan::compared_paths(source, target, n, options));
            if before.contains(path) {
                let k = before.index_of(path);
                assert(before[k] == path);
                assert(after[k] == path);
            }
            assert(after[before.len() as int] == last.0);
            if after.contains(path) && !before.contains(path) {
                let k = after.index_of(path);
                assert(after[k] == path);
                assert(k == before.len()) by {
                    if k < before.len() {
                        assert(before[k] == path);
                    }
                }
                assert(source[n - 1].0 == path);
            }
        }
    }
}

/// With checksums, the content of a file is compared exactly where both sides
/// have a file of one size at its path; without, that of none.
pub proof fn files_of_one_size_are_compared(
    source: TreeView,
    target: TreeView,
    options: PlanOptions,
    path: Seq<char>,
)
    ensures
        plan::compared_paths(source, target, source.len() as int, options).contains(path) <==> {
            &&& options.is_checksum
            &&& is_file_on_both_sides(source, target, source.len() as int, path)
        },
        !options.is_checksum ==> plan::compared_paths(
            source,
            target,
            source.len() as int,
            options,
        ).len() == 0,
{
    lemma_compared(source, target, source.len() as int, options, path);
    if !options.is_checksum {
        let all = plan::compared_paths(source, target, source.len() as int, options);
        if all.len() > 0 {
            lemma_compared(source, target, source.len() as int, options, all[0]);
        }
    }
}

/// Of the two files that are compared, the host's is the one below the root
/// that lies on the host: the source of what goes to the box, the destination
/// of what comes from it.
pub proof fn the_hosts_own_file_is_read(
    direction: SyncDirection,
    source_root: Seq<char>,
    target_root: Seq<char>,
    steps: Seq<char>,
)
    requires
        !path::is_absolute(steps),
    ensures
        ({
            let root = match direction {
                SyncDirection::HostToGuest => source_root,
                SyncDirection::GuestToHost => target_root,
            };
            let file = digest::compared_file(direction, source_root, target_root, steps);
            &&& steps.len() == 0 ==> file == root
            &&& steps.len() > 0 && root.len() > 0 && root.last() != '/' ==> file == root + "/"@ + steps
        }),
{
    reveal_strlit("/");
    let root = match direction {
        SyncDirection::HostToGuest => source_root,
        SyncDirection::GuestToHost => target_root,
    };
    if steps.len() > 0 && root.len() > 0 && root.last() != '/' {
        crate::basics::paths_are_put_behind_directories(root, steps);
        assert(digest::compared_file(direction, source_root, target_root, steps) =~= root + "/"@
            + steps);
    }
}

/// Two digests are of one side each, whichever way files go, and files are
/// alike only where their digests are.
pub proof fn digests_keep_their_sides(direction: SyncDirection, guest: Seq<u8>, host: Seq<u8>)
    ensures
        direction == SyncDirection::GuestToHost ==> digest::paired(direction, guest, host).source
            == guest && digest::paired(direction, guest, host).target == host,
        direction == SyncDirection::HostToGuest ==> digest::paired(direction, guest, host).source
            == host && digest::paired(direction, guest, host).target == guest,
{
}

/// Content goes on being read for as long as there is time and it fits, and
/// is taken for what the file held only where the file is as long as it was
/// and was not written to meanwhile.
pub proof fn files_are_hashed_while_they_hold_still(
    is_late: bool,
    total: nat,
    limit: u64,
    size: u64,
    size_after: u64,
    is_same_time: bool,
)
    ensures
        digest::hashing_verdict(is_late, total, limit) is Ok <==> !is_late && total <= limit,
        digest::hashed_verdict(size, size_after, is_same_time) is Ok <==> size_after == size
            && is_same_time,
{
}

/// A digest that the box sends is the one that is taken, byte for byte; there
/// is no other way to come by one.
pub proof fn digests_of_the_box_are_taken_as_they_are(event: DigestEvent, digest: Vec<u8>)
    ensures
        digest::digest_taken(event) == Ok::<_, Refusal>(Some(digest)) <==> (event matches DigestEvent::Digest(
            sent,
        ) && sent == digest),
        digest::digest_taken(event) is Err <==> event is Late || event is Other,
{
}

/// Files go to a box where its root is what it said and the two trees fit.
pub proof fn uploads_are_planned_where_the_trees_fit(
    source: TreeView,
    target: TreeView,
    status: RootStatus,
    names: Result<HostNamesView, Refusal>,
    rules: SyncRules,
)
    ensures
        transfer::transfer_verdict(
            source,
            target,
            status,
            SyncDirection::HostToGuest,
            names,
            rules,
        ) is Ok <==> {
            &&& security::root_kind(target, status) is Ok
            &&& security::manifest_verdict(source, rules) is Ok
            &&& security::manifest_verdict(target, rules) is Ok
            &&& plan::kind_conflicts(source, target, source.len() as int) is Ok
        },
{
}

/// Files come from a box where its root is what it said, the two trees fit,
/// every name could be tried out on the host and what that took was cleared
/// away again, and every link stays inside the destination. What went wrong
/// with the names is what is reported.
pub proof fn downloads_are_planned_where_they_are_safe(
    source: TreeView,
    target: TreeView,
    status: RootStatus,
    names: Result<HostNamesView, Refusal>,
    rules: SyncRules,
)
    ensures
        ({
            let verdict = transfer::transfer_verdict(
                source,
                target,
                status,
                SyncDirection::GuestToHost,
                names,
                rules,
            );
            let fitting = {
                &&& security::root_kind(source, status) is Ok
                &&& security::manifest_verdict(source, rules) is Ok
                &&& security::manifest_verdict(target, rules) is Ok
                &&& plan::kind_conflicts(source, target, source.len() as int) is Ok
            };
            &&& verdict is Ok <==> {
                &&& fitting
                &&& names is Ok
                &&& links::download_links(source, target, names->Ok_0.answers, rules) is Ok
                &&& names->Ok_0.closed is Ok
            }
            &&& fitting && names is Err ==> verdict == Err::<(), _>(names->Err_0)
        }),
{
}

/// How far a row of names leads down, counted from where it starts: each name
/// leads one down and each `..` one up; empty ones and `.` stay.
pub open spec fn depth_reached(names: Seq<Seq<char>>, k: int) -> int
    decreases k,
{
    if k <= 0 {
        0
    } else {
        depth_reached(names, k - 1) + (if names[k - 1].len() == 0 || names[k - 1] == seq!['.'] {
            0int
        } else if names[k - 1] == seq!['.', '.'] {
            -1
        } else {
            1
        })
    }
}

proof fn lemma_depth(names: Seq<Seq<char>>, depth: int, n: int)
    requires
        0 <= n <= names.len(),
        depth >= 0,
    ensures
        links::depth_after(names.take(n), depth) is Some <==> forall|k: int|
            0 <= k <= n ==> depth + #[trigger] depth_reached(names, k) >= 0,
        links::depth_after(names.take(n), depth) is Some ==> links::depth_after(
            names.take(n),
            depth,
        )->0 == depth + depth_reached(names, n),
    decreases n,
{
    if n > 0 {
        lemma_depth(names, depth, n - 1);
        assert(names.take(n).drop_last() =~= names.take(n - 1));
        assert(names.take(n).last() == names[n - 1]);
        if links::depth_after(names.take(n), depth) is Some {
            assert forall|k: int| 0 <= k <= n implies depth + #[trigger] depth_reached(names, k)
                >= 0 by {
                if k < n {
                    assert(depth + depth_reached(names, k) >= 0);
                }
            }
        } else {
            if links::depth_after(names.take(n - 1), depth) is Some {
                assert(depth + depth_reached(names, n) < 0);
            } else {
                let k = choose|k: int|
                    0 <= k <= n - 1 && depth + #[trigger] depth_reached(names, k) < 0;
                assert(0 <= k <= n && depth + depth_reached(names, k) < 0);
            }
        }
    } else {
        assert(names.take(0).len() == 0);
        assert forall|k: int| 0 <= k <= n implies depth + #[trigger] depth_reached(names, k)
            >= 0 by {}
    }
}

/// A link from a box is taken exactly where its target names something in
/// few enough bytes, starts at the link rather than at a root or a drive, and
/// never climbs above the directory it is written into, wherever between its
/// ends one looks.
pub proof fn links_are_taken_where_they_lead_down(
    path: Seq<char>,
    target: Seq<char>,
    rules: SyncRules,
)
    ensures
        links::target_verdict(path, target, rules) is Ok <==> {
            &&& target.len() > 0
            &&& text::utf8_len(target) <= rules.max_path_bytes
            &&& !target.contains('\0')
            &&& target[0] != '/'
            &&& rules.host == HostOs::Windows ==> target[0] != '\\' && !target.contains(':')
            &&& forall|k: int|
                0 <= k <= text::pieces(target, '/').len() ==> links::parent_depth(path)
                    + #[trigger] depth_reached(text::pieces(target, '/'), k) >= 0
        },
{
    let names = text::pieces(target, '/');
    lemma_depth(names, links::parent_depth(path), names.len() as int);
    assert(names.take(names.len() as int) =~= names);
}

/// Whether a way meets no link, no name that cannot be looked up, and nothing
/// above where it may go.
pub open spec fn is_clear(
    branch: BranchView,
    links: Links,
    names: Answers,
    rules: SyncRules,
) -> bool
    decreases branch.pending.len(),
{
    if branch.pending.len() == 0 {
        true
    } else {
        let name = branch.pending[0];
        let is_plain = name.len() > 0 && name != seq!['.'] && name != seq!['.', '.'];
        &&& name == seq!['.', '.'] ==> branch.resolved.len() > 0
        &&& is_plain ==> {
            &&& rules.host == HostOs::Windows ==> security::windows_name(name) is Ok
            &&& names::name_on_host(names, text::joined(branch.resolved, "/"@), name) is Ok
            &&& links::link_ahead(branch, links, names, rules.host) is None
        }
        &&& is_clear(links::stepped(branch, names), links, names, rules)
    }
}

/// The bytes that are looked at on a way that meets no link.
pub open spec fn bytes_on_the_way(branch: BranchView, names: Answers) -> nat
    decreases branch.pending.len(),
{
    if branch.pending.len() == 0 {
        0
    } else {
        let name = branch.pending[0];
        let is_plain = name.len() > 0 && name != seq!['.'] && name != seq!['.', '.'];
        let next = links::stepped(branch, names);
        text::utf8_len(name) + 1 + (if is_plain {
            text::utf8_len(text::joined(next.resolved, "/"@))
        } else {
            0
        }) + bytes_on_the_way(next, names)
    }
}

proof fn lemma_clear_walk(
    branch: BranchView,
    left: nat,
    links: Links,
    names: Answers,
    rules: SyncRules,
)
    requires
        is_clear(branch, links, names, rules),
        bytes_on_the_way(branch, names) <= left,
    ensures
        links::walk(seq![branch], left, links, names, rules) == (
            Ok::<(), Refusal>(()),
            (left - bytes_on_the_way(branch, names)) as nat,
        ),
    decreases branch.pending.len(),
{
    let branches = seq![branch];
    assert(branches.last() == branch);
    let others = branches.drop_last();
    assert(others.len() == 0);
    if branch.pending.len() == 0 {
        assert(links::walk(others, left, links, names, rules) == (Ok::<(), Refusal>(()), left));
    } else {
        let next = links::stepped(branch, names);
        let name = branch.pending[0];
        let is_plain = name.len() > 0 && name != seq!['.'] && name != seq!['.', '.'];
        let spent = text::utf8_len(name) + 1 + (if is_plain {
            text::utf8_len(text::joined(next.resolved, "/"@))
        } else {
            0
        });
        lemma_clear_walk(next, (left - spent) as nat, links, names, rules);
        assert(others.push(next) =~= seq![next]);
    }
}

/// A link whose way meets no other link is accepted, as long as there is work
/// left to look at it; and no more is spent than the bytes on its way.
pub proof fn links_on_a_clear_way_are_accepted(
    path: Seq<char>,
    target: Seq<char>,
    links: Links,
    names: Answers,
    remaining: nat,
    rules: SyncRules,
)
    requires
        links::target_verdict(path, target, rules) is Ok,
        is_clear(links::first_branch(path, target), links, names, rules),
    ensures
        ({
            let work = text::utf8_len(path) + text::utf8_len(target) + 1 + bytes_on_the_way(
                links::first_branch(path, target),
                names,
            );
            work <= remaining ==> links::resolutions(path, target, links, names, remaining, rules)
                == (Ok::<(), Refusal>(()), (remaining - work) as nat)
        }),
{
    let branch = links::first_branch(path, target);
    let cost = text::utf8_len(path) + text::utf8_len(target) + 1;
    if cost + bytes_on_the_way(branch, names) <= remaining {
        lemma_clear_walk(branch, (remaining - cost) as nat, links, names, rules);
    }
}

proof fn lemma_no_links(
    source: TreeView,
    n: int,
    links: Links,
    names: Answers,
    remaining: nat,
    rules: SyncRules,
)
    requires
        0 <= n <= source.len(),
        forall|i: int| 0 <= i < n ==> (#[trigger] source[i]).1.link_target is None,
    ensures
        links::resolved_among(source, n, links, names, remaining, rules) == (
            Ok::<(), Refusal>(()),
            remaining,
        ),
    decreases n,
{
    if n > 0 {
        lemma_no_links(source, n - 1, links, names, remaining, rules);
        assert(source[n - 1].1.link_target is None);
    }
}

/// A tree without links is never refused for its links, whatever stands on
/// the host.
pub proof fn trees_without_links_are_accepted(
    source: TreeView,
    destination: TreeView,
    names: Answers,
    rules: SyncRules,
)
    requires
        forall|i: int| 0 <= i < source.len() ==> (#[trigger] source[i]).1.link_target is None,
    ensures
        links::download_links(source, destination, names, rules) is Ok,
{
    lemma_no_links(
        source,
        source.len() as int,
        links::all_links(source, destination, rules.host),
        names,
        links::MAX_SYNC_LINK_WORK_BYTES as nat,
        rules,
    );
}

/// As many steps that were done as given.
pub open spec fn all_done(n: nat) -> Seq<RunEventView> {
    Seq::new(n, |i: int| RunEventView::Done)
}

proof fn lemma_goes_through(
    actions: Seq<ActionView>,
    direction: SyncDirection,
    rules: SyncRules,
    n: nat,
)
    requires
        n <= exec::scheduled(actions).len(),
        direction == SyncDirection::GuestToHost ==> forall|i: int|
            0 <= i < exec::scheduled(actions).len() ==> match #[trigger] exec::scheduled(
                actions,
            )[i] {
                ActionView::CreateSymlink { rel_path, target } => links::target_verdict(
                    rel_path,
                    target,
                    rules,
                ) is Ok,
                _ => true,
            },
    ensures
        ({
            let run = run::run_through(
                run::run_of(actions, direction, rules, false),
                all_done(n),
            );
            &&& run.stage is Going
            &&& run.done == n
            &&& run.steps == exec::scheduled(actions)
            &&& run.stats == exec::stats_of(actions)
            &&& run.direction == direction
            &&& run.rules == rules
        }),
    decreases n,
{
    let steps = exec::scheduled(actions);
    if n > 0 {
        lemma_goes_through(actions, direction, rules, (n - 1) as nat);
        assert(all_done(n).drop_last() =~= all_done((n - 1) as nat));
        assert(all_done(n).last() == RunEventView::Done);
    }
    if n < steps.len() {
        assert(run::action_verdict(steps[n as int], direction, rules) is Ok) by {
            let action = steps[n as int];
        }
    }
}

/// A run does one step after the other, in the order in which they are
/// scheduled, ends the session after the last, and is finished once that is
/// confirmed: what it comes to is what its plan was counted at.
pub proof fn runs_go_through(
    actions: Seq<ActionView>,
    direction: SyncDirection,
    rules: SyncRules,
    n: nat,
)
    requires
        n <= exec::scheduled(actions).len(),
        direction == SyncDirection::GuestToHost ==> forall|i: int|
            0 <= i < exec::scheduled(actions).len() ==> match #[trigger] exec::scheduled(
                actions,
            )[i] {
                ActionView::CreateSymlink { rel_path, target } => links::target_verdict(
                    rel_path,
                    target,
                    rules,
                ) is Ok,
                _ => true,
            },
    ensures
        ({
            let begun = run::run_of(actions, direction, rules, false);
            let run = run::run_through(begun, all_done(n));
            &&& n < exec::scheduled(actions).len() ==> run::run_step(run) == RunStepView::Perform(
                exec::scheduled(actions)[n as int],
            )
            &&& n == exec::scheduled(actions).len() ==> {
                &&& run::run_step(run) == RunStepView::EndSession
                &&& run::run_after(run, RunEventView::Done).stage is Finished
                &&& run::run_after(run, RunEventView::Done).stats == exec::stats_of(actions)
            }
        }),
{
    lemma_goes_through(actions, direction, rules, n);
}

/// What goes wrong at a step ends a run with what went wrong, and a step that
/// is not confirmed or not taken up ends it as well.
pub proof fn runs_stop_at_what_goes_wrong(
    run: run::RunView,
    refused: Refusal,
    got: Seq<char>,
)
    requires
        run.stage is Going,
    ensures
        run::run_after(run, RunEventView::Failed(refused)).stage == RunStageView::Failed(refused),
        run::run_after(run, RunEventView::NotReady(got)).stage is Failed,
        run::run_after(run, RunEventView::Unconfirmed(got)).stage is Failed,
        run::run_after(run, RunEventView::Failed(refused)).done == run.done,
{
}

/// A link that comes from a box is made on the host only where it leads
/// down, however the plan came about.
pub proof fn links_are_looked_at_again_before_they_are_made(
    actions: Seq<ActionView>,
    direction: SyncDirection,
    rules: SyncRules,
    is_dry_run: bool,
    events: Seq<RunEventView>,
)
    ensures
        match run::run_step(
            run::run_through(run::run_of(actions, direction, rules, is_dry_run), events),
        ) {
            RunStepView::Perform(
                ActionView::CreateSymlink { rel_path, target },
            ) if direction == SyncDirection::GuestToHost => links::target_verdict(
                rel_path,
                target,
                rules,
            ) is Ok,
            _ => true,
        },
{
    lemma_looked_at(actions, direction, rules, is_dry_run, events);
}

proof fn lemma_looked_at(
    actions: Seq<ActionView>,
    direction: SyncDirection,
    rules: SyncRules,
    is_dry_run: bool,
    events: Seq<RunEventView>,
)
    ensures
        ({
            let run = run::run_through(
                run::run_of(actions, direction, rules, is_dry_run),
                events,
            );
            &&& run.direction == direction
            &&& run.rules == rules
            &&& run.stage is Going && run.done < run.steps.len() ==> run::action_verdict(
                run.steps[run.done as int],
                direction,
                rules,
            ) is Ok
        }),
    decreases events.len(),
{
    if events.len() > 0 {
        lemma_looked_at(actions, direction, rules, is_dry_run, events.drop_last());
    }
}

/// Whether one of the first entries of a tree is a link at a path.
pub open spec fn has_link(entries: TreeView, n: int, path: Seq<char>) -> bool {
    exists|i: int|
        0 <= i < n && (#[trigger] entries[i]).0 == path && entries[i].1.link_target is Some
}

/// Where a tree says that a path leads, if it is a link there.
pub open spec fn leads_to(entries: TreeView, path: Seq<char>) -> Option<Seq<char>> {
    match ordered::lookup(entries, path) {
        Some(entry) => entry.link_target,
        None => None,
    }
}

proof fn lemma_links_among(
    links: Links,
    entries: TreeView,
    n: int,
    source: TreeView,
    destination: TreeView,
    path: Seq<char>,
)
    requires
        ordered::keys_in_order(links),
        0 <= n <= entries.len(),
    ensures
        ({
            let more = links::links_among(links, entries, n, source, destination, HostOs::Linux);
            &&& ordered::keys_in_order(more)
            &&& ordered::lookup(more, path) == (if has_link(entries, n, path) {
                Some(
                    TargetsView {
                        incoming: leads_to(source, path),
                        existing: leads_to(destination, path),
                    },
                )
            } else {
                ordered::lookup(links, path)
            })
        }),
    decreases n,
{
    if n > 0 {
        lemma_links_among(links, entries, n - 1, source, destination, path);
        let before = links::links_among(links, entries, n - 1, source, destination, HostOs::Linux);
        let (last, entry) = entries[n - 1];
        if entry.link_target is Some {
            let targets = TargetsView {
                incoming: links::target_at(source, last),
                existing: links::target_at(destination, last),
            };
            ordered::lemma_lookup_with_entry(before, last, targets, path);
            if last == path {
                assert(entries[n - 1].0 == path);
                assert(has_link(entries, n, path));
            }
        }
        if has_link(entries, n, path) && !has_link(entries, n - 1, path) {
            let i = choose|i: int|
                0 <= i < n && (#[trigger] entries[i]).0 == path
                    && entries[i].1.link_target is Some;
            assert(i == n - 1);
        }
        if has_link(entries, n - 1, path) {
            let i = choose|i: int|
                0 <= i < n - 1 && (#[trigger] entries[i]).0 == path
                    && entries[i].1.link_target is Some;
            assert(0 <= i < n && entries[i].0 == path);
        }
    }
}

/// Of every path that is a link in either of two trees, where it leads in the
/// one and in the other is looked at; a path that is a link in neither is not
/// taken for one.
pub proof fn links_are_looked_at_on_both_sides(
    source: TreeView,
    destination: TreeView,
    path: Seq<char>,
)
    ensures
        ({
            let found = ordered::lookup(
                links::all_links(source, destination, HostOs::Linux),
                path,
            );
            let is_link = has_link(source, source.len() as int, path) || has_link(
                destination,
                destination.len() as int,
                path,
            );
            &&& found is Some <==> is_link
            &&& found is Some ==> {
                &&& found->0.incoming == leads_to(source, path)
                &&& found->0.existing == leads_to(destination, path)
            }
        }),
{
    let none: Links = Seq::empty();
    lemma_links_among(none, source, source.len() as int, source, destination, path);
    let incoming = links::links_among(
        none,
        source,
        source.len() as int,
        source,
        destination,
        HostOs::Linux,
    );
    lemma_links_among(
        incoming,
        destination,
        destination.len() as int,
        source,
        destination,
        path,
    );
}

/// An upload asks the box for its destination, and, where the copy goes inside
/// it, for the place it goes to; what it then scans is where it will write, as
/// the box found it there. Any other reply ends it.
pub proof fn uploads_ask_for_the_place_they_write_to(
    upload: UploadView,
    status: RootStatus,
    root: Seq<char>,
    later: RootStatus,
    got: Seq<char>,
    refused: Refusal,
)
    requires
        upload.stage is Asking,
    ensures
        ({
            let placed = session::upload_root(
                upload.src,
                upload.is_dir,
                upload.src_trailing,
                upload.dst,
                upload.dst_trailing,
                status,
            );
            let next = transfer::upload_after(upload, ReplyView::Ready(status));
            let rooted = transfer::upload_after(next, ReplyView::Ready(later));
            &&& transfer::upload_step(upload) == TransferStepView::Begin(upload.dst)
            &&& placed is Err ==> next.stage == UploadStageView::Refused(placed->Err_0)
            &&& placed == Ok::<_, Refusal>(upload.dst) ==> transfer::upload_step(next)
                == (TransferStepView::Scan { root: upload.dst, status })
            &&& placed == Ok::<_, Refusal>(root) && root != upload.dst ==> {
                &&& transfer::upload_step(next) == TransferStepView::Begin(root)
                &&& transfer::upload_step(rooted) == (TransferStepView::Scan {
                    root,
                    status: later,
                })
            }
            &&& transfer::upload_after(upload, ReplyView::Failed(refused)).stage
                == UploadStageView::Refused(refused)
            &&& transfer::upload_after(upload, ReplyView::Other(got)).stage is Refused
        }),
{
}

/// A download asks the box for its source, looks at the destination, and scans
/// where it will write; what cannot be fetched, or cannot be put there, ends
/// it, and so does any other reply.
pub proof fn downloads_look_where_they_write_to(
    download: DownloadView,
    status: RootStatus,
    is_dir: Option<bool>,
    got: Seq<char>,
    refused: Refusal,
)
    requires
        download.stage is Asking,
    ensures
        ({
            let source = session::download_source(
                download.src,
                status,
                download.src_trailing,
                download.is_delete,
            );
            let placed = session::download_root(
                download.src,
                status,
                download.src_trailing,
                download.dst,
                download.dst_trailing,
                is_dir,
            );
            let ready = DownloadEventView::Answered(ReplyView::Ready(status));
            let next = transfer::download_after(download, ready);
            let found = transfer::download_after(next, DownloadEventView::Found(is_dir));
            &&& transfer::download_step(download) == TransferStepView::Begin(download.src)
            &&& source is Err ==> next.stage == DownloadStageView::Refused(source->Err_0)
            &&& source is Ok ==> transfer::download_step(next) == TransferStepView::Look(
                download.dst,
            )
            &&& source is Ok && placed is Ok ==> transfer::download_step(found)
                == (TransferStepView::Scan { root: placed->Ok_0, status })
            &&& source is Ok && placed is Err ==> found.stage == DownloadStageView::Refused(
                placed->Err_0,
            )
            &&& source is Ok ==> transfer::download_after(
                next,
                DownloadEventView::Failed(refused),
            ).stage == DownloadStageView::Refused(refused)
            &&& transfer::download_after(
                download,
                DownloadEventView::Answered(ReplyView::Failed(refused)),
            ).stage == DownloadStageView::Refused(refused)
            &&& transfer::download_after(
                download,
                DownloadEventView::Answered(ReplyView::Other(got)),
            ).stage is Refused
        }),
{
}

} // verus!
