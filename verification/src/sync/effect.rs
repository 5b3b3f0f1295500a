//! What a run leaves behind: the order its steps come in, and the tree it
//! makes.

use crate::host::HostOs;
use crate::ordered;
use crate::sync::digest;
use crate::sync::entry::{EntryView, SyncDirection, SyncEntryKind, SyncRules, TreeView};
use crate::sync::exec;
use crate::sync::plan::{self, ActionView, PlanOptions};
use crate::sync::security;
use crate::text;
use vstd::prelude::*;

verus! {

/// Whether no action comes after one that it has to precede.
pub open spec fn in_length_order(actions: Seq<ActionView>, longest_first: bool) -> bool {
    forall|i: int, j: int|
        0 <= i < j < actions.len() ==> !exec::comes_before(
            #[trigger] actions[j],
            #[trigger] actions[i],
            longest_first,
        )
}

proof fn lemma_put_keeps_order(list: Seq<ActionView>, action: ActionView, longest_first: bool)
    requires
        in_length_order(list, longest_first),
    ensures
        in_length_order(exec::put_in_order(list, action, longest_first), longest_first),
        exec::put_in_order(list, action, longest_first).to_multiset() == list.to_multiset().insert(action),
        forall|k: int|
            0 <= k < exec::put_in_order(list, action, longest_first).len() ==> list.contains(
                #[trigger] exec::put_in_order(list, action, longest_first)[k],
            ) || exec::put_in_order(list, action, longest_first)[k] == action,
    decreases list.len(),
{
    broadcast use vstd::seq_lib::group_to_multiset_ensures;

    let result = exec::put_in_order(list, action, longest_first);
    if list.len() > 0 && exec::comes_before(action, list.last(), longest_first) {
        let init = list.drop_last();
        let inner = exec::put_in_order(init, action, longest_first);
        assert forall|i: int, j: int| 0 <= i < j < init.len() implies !exec::comes_before(
            #[trigger] init[j],
            #[trigger] init[i],
            longest_first,
        ) by {
            assert(init[i] == list[i]);
            assert(init[j] == list[j]);
        }
        lemma_put_keeps_order(init, action, longest_first);
        assert(init.push(list.last()) =~= list);
        assert forall|k: int| 0 <= k < result.len() implies list.contains(#[trigger] result[k])
            || result[k] == action by {
            if k < inner.len() {
                assert(result[k] == inner[k]);
                if init.contains(inner[k]) {
                    let m = choose|m: int| 0 <= m < init.len() && init[m] == inner[k];
                    assert(list[m] == inner[k]);
                }
            } else {
                assert(result[k] == list[list.len() - 1]);
            }
        }
        assert forall|i: int, j: int| 0 <= i < j < result.len() implies !exec::comes_before(
            #[trigger] result[j],
            #[trigger] result[i],
            longest_first,
        ) by {
            assert(result[i] == inner[i]);
            if j < inner.len() {
                assert(result[j] == inner[j]);
            } else {
                assert(result[j] == list.last());
                if init.contains(inner[i]) {
                    let m = choose|m: int| 0 <= m < init.len() && init[m] == inner[i];
                    assert(list[m] == inner[i]);
                    assert(list[list.len() - 1] == list.last());
                }
            }
        }
    } else {
        assert forall|i: int, j: int| 0 <= i < j < result.len() implies !exec::comes_before(
            #[trigger] result[j],
            #[trigger] result[i],
            longest_first,
        ) by {
            assert(result[i] == list[i]);
            if j < list.len() {
                assert(result[j] == list[j]);
            } else if i < list.len() - 1 {
                assert(!exec::comes_before(list[list.len() - 1], list[i], longest_first));
            }
        }
        assert forall|k: int| 0 <= k < result.len() implies list.contains(#[trigger] result[k])
            || result[k] == action by {
            if k < list.len() {
                assert(result[k] == list[k]);
            }
        }
    }
}

proof fn lemma_by_length(actions: Seq<ActionView>, longest_first: bool)
    ensures
        in_length_order(exec::by_length(actions, longest_first), longest_first),
        exec::by_length(actions, longest_first).to_multiset() == actions.to_multiset(),
    decreases actions.len(),
{
    broadcast use vstd::seq_lib::group_to_multiset_ensures;

    if actions.len() > 0 {
        lemma_by_length(actions.drop_last(), longest_first);
        lemma_put_keeps_order(
            exec::by_length(actions.drop_last(), longest_first),
            actions.last(),
            longest_first,
        );
        assert(actions.drop_last().push(actions.last()) =~= actions);
    } else {
        assert(exec::by_length(actions, longest_first) =~= actions);
    }
}

proof fn lemma_in_phase(actions: Seq<ActionView>, wanted: int, k: int)
    requires
        0 <= k < exec::in_phase(actions, wanted).len(),
    ensures
        exec::phase(exec::in_phase(actions, wanted)[k]) == wanted,
    decreases actions.len(),
{
    if actions.len() > 0 {
        let before = exec::in_phase(actions.drop_last(), wanted);
        if k < before.len() {
            lemma_in_phase(actions.drop_last(), wanted, k);
            assert(exec::in_phase(actions, wanted)[k] == before[k]);
        }
    }
}

proof fn lemma_sorted_phase(actions: Seq<ActionView>, wanted: int, longest_first: bool, k: int)
    requires
        0 <= k < exec::by_length(exec::in_phase(actions, wanted), longest_first).len(),
    ensures
        exec::phase(exec::by_length(exec::in_phase(actions, wanted), longest_first)[k]) == wanted,
{
    broadcast use vstd::seq_lib::group_to_multiset_ensures;

    let list = exec::in_phase(actions, wanted);
    let sorted = exec::by_length(list, longest_first);
    lemma_by_length(list, longest_first);
    assert(sorted.contains(sorted[k]));
    assert(sorted.to_multiset().count(sorted[k]) > 0);
    assert(list.contains(sorted[k]));
    let m = choose|m: int| 0 <= m < list.len() && list[m] == sorted[k];
    lemma_in_phase(actions, wanted, m);
}

/// Whether one path lies below another.
pub open spec fn below(child: Seq<char>, parent: Seq<char>) -> bool {
    exists|rest: Seq<char>| child == #[trigger] (parent.push('/') + rest)
}

proof fn lemma_below_is_longer(child: Seq<char>, parent: Seq<char>)
    requires
        below(child, parent),
    ensures
        text::utf8_len(child) > text::utf8_len(parent),
{
    let rest = choose|rest: Seq<char>| child == #[trigger] (parent.push('/') + rest);
    text::lemma_utf8_len_add(parent.push('/'), rest);
    assert(parent.push('/') =~= parent + seq!['/']);
    text::lemma_utf8_len_add(parent, seq!['/']);
    text::lemma_utf8_len_add(seq!['/'], Seq::empty());
}

/// The order of a run: directories before what is written, what is written
/// before what is removed, and the times of directories last. A directory is
/// made before those below it, removed after those below it, and its time set
/// after theirs.
pub proof fn runs_go_in_order(actions: Seq<ActionView>, i: int, j: int)
    requires
        0 <= i < j < exec::scheduled(actions).len(),
    ensures
        exec::phase(exec::scheduled(actions)[i]) <= exec::phase(exec::scheduled(actions)[j]) < 5,
        ({
            let (a, b) = (exec::scheduled(actions)[i], exec::scheduled(actions)[j]);
            &&& a is CreateDir && b is CreateDir ==> !below(plan::path_of(a), plan::path_of(b))
            &&& a is RemoveEntry && b is RemoveEntry ==> !below(plan::path_of(b), plan::path_of(a))
            &&& a is UpdateDirMetadata && b is UpdateDirMetadata ==> !below(plan::path_of(b), plan::path_of(a))
        }),
{
    let p0 = exec::by_length(exec::in_phase(actions, 0), false);
    let p1 = exec::in_phase(actions, 1);
    let p2 = exec::in_phase(actions, 2);
    let p3 = exec::by_length(exec::in_phase(actions, 3), true);
    let p4 = exec::by_length(exec::in_phase(actions, 4), true);
    let all = exec::scheduled(actions);
    lemma_by_length(exec::in_phase(actions, 0), false);
    lemma_by_length(exec::in_phase(actions, 3), true);
    lemma_by_length(exec::in_phase(actions, 4), true);
    let (n0, n1, n2, n3) = (
        p0.len() as int,
        (p0.len() + p1.len()) as int,
        (p0.len() + p1.len() + p2.len()) as int,
        (p0.len() + p1.len() + p2.len() + p3.len()) as int,
    );
    assert forall|k: int| 0 <= k < all.len() implies (#[trigger] exec::phase(all[k])) == (if k < n0 {
        0int
    } else if k < n1 {
        1
    } else if k < n2 {
        2
    } else if k < n3 {
        3
    } else {
        4
    }) by {
        if k < n0 {
            assert(all[k] == p0[k]);
            lemma_sorted_phase(actions, 0, false, k);
        } else if k < n1 {
            assert(all[k] == p1[k - n0]);
            lemma_in_phase(actions, 1, k - n0);
        } else if k < n2 {
            assert(all[k] == p2[k - n1]);
            lemma_in_phase(actions, 2, k - n1);
        } else if k < n3 {
            assert(all[k] == p3[k - n2]);
            lemma_sorted_phase(actions, 3, true, k - n2);
        } else {
            assert(all[k] == p4[k - n3]);
            lemma_sorted_phase(actions, 4, true, k - n3);
        }
    }
    let (a, b) = (all[i], all[j]);
    assert(exec::phase(a) <= exec::phase(b) < 5);
    if a is CreateDir && b is CreateDir {
        assert(a == p0[i] && b == p0[j]);
        if below(plan::path_of(a), plan::path_of(b)) {
            lemma_below_is_longer(plan::path_of(a), plan::path_of(b));
            assert(exec::comes_before(p0[j], p0[i], false));
        }
    }
    if a is RemoveEntry && b is RemoveEntry {
        assert(a == p3[i - n2] && b == p3[j - n2]);
        if below(plan::path_of(b), plan::path_of(a)) {
            lemma_below_is_longer(plan::path_of(b), plan::path_of(a));
            assert(exec::comes_before(p3[j - n2], p3[i - n2], true));
        }
    }
    if a is UpdateDirMetadata && b is UpdateDirMetadata {
        assert(a == p4[i - n3] && b == p4[j - n3]);
        if below(plan::path_of(b), plan::path_of(a)) {
            lemma_below_is_longer(plan::path_of(b), plan::path_of(a));
            assert(exec::comes_before(p4[j - n3], p4[i - n3], true));
        }
    }
}

/// What stands under a path; a mode or time that no action settles is not
/// known.
#[verifier::ext_equal]
pub struct Node {
    pub kind: SyncEntryKind,
    pub size: u64,
    pub mode: Option<u32>,
    pub mtime: Option<(i64, u32)>,
    pub link_target: Option<Seq<char>>,
}

/// What an entry of a tree stands for.
pub open spec fn node_of(entry: Option<EntryView>) -> Option<Node> {
    match entry {
        None => None,
        Some(entry) => Some(
            Node {
                kind: entry.kind,
                size: entry.size,
                mode: Some(entry.mode),
                mtime: Some((entry.mtime_secs, entry.mtime_nanos)),
                link_target: entry.link_target,
            },
        ),
    }
}

pub open spec fn adjusted(
    node: Option<Node>,
    mode: u32,
    mtime: (i64, u32),
    direction: SyncDirection,
    host: HostOs,
) -> Option<Node> {
    match node {
        None => None,
        Some(node) => Some(
            Node {
                mode: Some(security::mode_after(host, mode, direction, node.kind)),
                mtime: Some(mtime),
                ..node
            },
        ),
    }
}

/// What an action makes of what stands under its path.
pub open spec fn effect(
    node: Option<Node>,
    action: ActionView,
    direction: SyncDirection,
    host: HostOs,
) -> Option<Node> {
    match action {
        ActionView::CreateDir { .. } => match node {
            Some(node) => Some(node),
            None => Some(
                Node {
                    kind: SyncEntryKind::Directory,
                    size: 0,
                    mode: None,
                    mtime: None,
                    link_target: None,
                },
            ),
        },
        ActionView::TransferFile { size, mode, mtime_secs, mtime_nanos, .. } => Some(
            Node {
                kind: SyncEntryKind::File,
                size,
                mode: Some(security::mode_after(host, mode, direction, SyncEntryKind::File)),
                mtime: Some((mtime_secs, mtime_nanos)),
                link_target: None,
            },
        ),
        ActionView::CreateSymlink { target, .. } => Some(
            Node {
                kind: SyncEntryKind::Symlink,
                size: 0,
                mode: None,
                mtime: None,
                link_target: Some(target),
            },
        ),
        ActionView::UpdateFileMetadata { mode, mtime_secs, mtime_nanos, .. } => adjusted(
            node,
            mode,
            (mtime_secs, mtime_nanos),
            direction,
            host,
        ),
        ActionView::UpdateDirMetadata { mode, mtime_secs, mtime_nanos, .. } => adjusted(
            node,
            mode,
            (mtime_secs, mtime_nanos),
            direction,
            host,
        ),
        ActionView::RemoveEntry { .. } => None,
        ActionView::Skip { .. } => node,
    }
}

/// What stands under a path once a list of actions is done, one after the
/// other.
pub open spec fn node_after(
    actions: Seq<ActionView>,
    path: Seq<char>,
    start: Option<Node>,
    direction: SyncDirection,
    host: HostOs,
) -> Option<Node>
    decreases actions.len(),
{
    if actions.len() == 0 {
        start
    } else {
        let before = node_after(actions.drop_last(), path, start, direction, host);
        if plan::path_of(actions.last()) == path {
            effect(before, actions.last(), direction, host)
        } else {
            before
        }
    }
}

/// Whether what stands under a path is what an entry describes. The time and
/// mode of a link are those of its making.
pub open spec fn stands_for(node: Node, entry: EntryView) -> bool {
    &&& node.kind == entry.kind
    &&& entry.kind == SyncEntryKind::File ==> node.size == entry.size
    &&& entry.kind == SyncEntryKind::Symlink ==> node.link_target == entry.link_target
    &&& entry.kind != SyncEntryKind::Symlink ==> node.mode == Some(entry.mode) && node.mtime
        == Some((entry.mtime_secs, entry.mtime_nanos))
}

/// The actions about one path, in their order.
pub open spec fn about(actions: Seq<ActionView>, path: Seq<char>) -> Seq<ActionView>
    decreases actions.len(),
{
    if actions.len() == 0 {
        Seq::empty()
    } else if plan::path_of(actions.last()) == path {
        about(actions.drop_last(), path).push(actions.last())
    } else {
        about(actions.drop_last(), path)
    }
}

proof fn lemma_about_decides(
    actions: Seq<ActionView>,
    path: Seq<char>,
    start: Option<Node>,
    direction: SyncDirection,
    host: HostOs,
)
    ensures
        node_after(actions, path, start, direction, host) == node_after(
            about(actions, path),
            path,
            start,
            direction,
            host,
        ),
    decreases actions.len(),
{
    if actions.len() > 0 {
        lemma_about_decides(actions.drop_last(), path, start, direction, host);
        if plan::path_of(actions.last()) == path {
            assert(about(actions, path).drop_last() =~= about(actions.drop_last(), path));
        }
    }
}

proof fn lemma_about_add(a: Seq<ActionView>, b: Seq<ActionView>, path: Seq<char>)
    ensures
        about(a + b, path) == about(a, path) + about(b, path),
    decreases b.len(),
{
    if b.len() == 0 {
        assert(a + b =~= a);
        assert(about(a, path) + about(b, path) =~= about(a, path));
    } else {
        assert((a + b).drop_last() =~= a + b.drop_last());
        lemma_about_add(a, b.drop_last(), path);
        if plan::path_of(b.last()) == path {
            assert((about(a, path) + about(b.drop_last(), path)).push(b.last()) =~= about(a, path)
                + about(b, path));
        }
    }
}

proof fn lemma_about_put(
    list: Seq<ActionView>,
    action: ActionView,
    longest_first: bool,
    path: Seq<char>,
)
    ensures
        about(exec::put_in_order(list, action, longest_first), path) == (if plan::path_of(action) == path {
            about(list, path).push(action)
        } else {
            about(list, path)
        }),
    decreases list.len(),
{
    if list.len() > 0 && exec::comes_before(action, list.last(), longest_first) {
        lemma_about_put(list.drop_last(), action, longest_first, path);
        let inner = exec::put_in_order(list.drop_last(), action, longest_first);
        assert(inner.push(list.last()).drop_last() =~= inner);
    } else {
        assert(list.push(action).drop_last() =~= list);
    }
}

proof fn lemma_about_by_length(actions: Seq<ActionView>, longest_first: bool, path: Seq<char>)
    ensures
        about(exec::by_length(actions, longest_first), path) == about(actions, path),
    decreases actions.len(),
{
    if actions.len() > 0 {
        lemma_about_by_length(actions.drop_last(), longest_first, path);
        lemma_about_put(
            exec::by_length(actions.drop_last(), longest_first),
            actions.last(),
            longest_first,
            path,
        );
    }
}

proof fn lemma_about_in_phase(actions: Seq<ActionView>, wanted: int, path: Seq<char>)
    ensures
        about(exec::in_phase(actions, wanted), path) == exec::in_phase(about(actions, path), wanted),
    decreases actions.len(),
{
    if actions.len() > 0 {
        lemma_about_in_phase(actions.drop_last(), wanted, path);
        let before = exec::in_phase(actions.drop_last(), wanted);
        assert(before.push(actions.last()).drop_last() =~= before);
        let mine = about(actions.drop_last(), path);
        assert(mine.push(actions.last()).drop_last() =~= mine);
    }
}

proof fn lemma_about_scheduled(actions: Seq<ActionView>, path: Seq<char>)
    ensures
        about(exec::scheduled(actions), path) == ({
            let mine = about(actions, path);
            exec::in_phase(mine, 0) + exec::in_phase(mine, 1) + exec::in_phase(mine, 2) + exec::in_phase(mine, 3)
                + exec::in_phase(mine, 4)
        }),
{
    let p0 = exec::by_length(exec::in_phase(actions, 0), false);
    let p1 = exec::in_phase(actions, 1);
    let p2 = exec::in_phase(actions, 2);
    let p3 = exec::by_length(exec::in_phase(actions, 3), true);
    let p4 = exec::by_length(exec::in_phase(actions, 4), true);
    lemma_about_add(p0 + p1 + p2 + p3, p4, path);
    lemma_about_add(p0 + p1 + p2, p3, path);
    lemma_about_add(p0 + p1, p2, path);
    lemma_about_add(p0, p1, path);
    lemma_about_by_length(exec::in_phase(actions, 0), false, path);
    lemma_about_by_length(exec::in_phase(actions, 3), true, path);
    lemma_about_by_length(exec::in_phase(actions, 4), true, path);
    lemma_about_in_phase(actions, 0, path);
    lemma_about_in_phase(actions, 1, path);
    lemma_about_in_phase(actions, 2, path);
    lemma_about_in_phase(actions, 3, path);
    lemma_about_in_phase(actions, 4, path);
}

proof fn lemma_about_one(action: ActionView, path: Seq<char>)
    ensures
        about(seq![action], path) == (if plan::path_of(action) == path {
            seq![action]
        } else {
            Seq::<ActionView>::empty()
        }),
{
    assert(seq![action].drop_last() =~= Seq::<ActionView>::empty());
    assert(about(seq![action].drop_last(), path) =~= Seq::<ActionView>::empty());
    assert(Seq::<ActionView>::empty().push(action) =~= seq![action]);
}

/// The actions about an entry of the tree to copy.
pub open spec fn own_actions(
    source: TreeView,
    target: TreeView,
    i: int,
    options: PlanOptions,
    digests: digest::Digests,
    host: HostOs,
) -> Seq<ActionView> {
    plan::entry_actions(
        source[i].0,
        source[i].1,
        ordered::lookup(target, source[i].0),
        plan::tree_differs(source, target, options, host),
        options,
        digests,
        host,
    )
}

proof fn lemma_about_own(
    source: TreeView,
    target: TreeView,
    i: int,
    options: PlanOptions,
    digests: digest::Digests,
    host: HostOs,
    path: Seq<char>,
)
    ensures
        about(own_actions(source, target, i, options, digests, host), path) == (if source[i].0
            == path {
            own_actions(source, target, i, options, digests, host)
        } else {
            Seq::<ActionView>::empty()
        }),
{
    let own = own_actions(source, target, i, options, digests, host);
    if own.len() == 1 {
        assert(own =~= seq![own[0]]);
        lemma_about_one(own[0], path);
    } else {
        assert(own =~= seq![own[0]] + seq![own[1]]);
        lemma_about_add(seq![own[0]], seq![own[1]], path);
        lemma_about_one(own[0], path);
        lemma_about_one(own[1], path);
        assert(Seq::<ActionView>::empty() + Seq::<ActionView>::empty()
            =~= Seq::<ActionView>::empty());
    }
}

proof fn lemma_about_copies(
    source: TreeView,
    target: TreeView,
    n: int,
    options: PlanOptions,
    digests: digest::Digests,
    host: HostOs,
    path: Seq<char>,
)
    requires
        ordered::keys_in_order(source),
        0 <= n <= source.len(),
    ensures
        (forall|i: int| 0 <= i < n ==> (#[trigger] source[i]).0 != path) ==> about(
            plan::copy_actions(source, target, n, options, digests, host),
            path,
        ) == Seq::<ActionView>::empty(),
        forall|i: int|
            0 <= i < n && (#[trigger] source[i]).0 == path ==> about(
                plan::copy_actions(source, target, n, options, digests, host),
                path,
            ) == own_actions(source, target, i, options, digests, host),
    decreases n,
{
    if n > 0 {
        lemma_about_copies(source, target, n - 1, options, digests, host, path);
        let before = plan::copy_actions(source, target, n - 1, options, digests, host);
        let own = own_actions(source, target, n - 1, options, digests, host);
        lemma_about_add(before, own, path);
        lemma_about_own(source, target, n - 1, options, digests, host, path);
        assert forall|i: int| 0 <= i < n && (#[trigger] source[i]).0 == path implies about(
            plan::copy_actions(source, target, n, options, digests, host),
            path,
        ) == own_actions(source, target, i, options, digests, host) by {
            ordered::lemma_precedes_irreflexive(path);
            if i < n - 1 {
                assert(ordered::precedes(source[i].0, source[n - 1].0));
                assert(about(before, path) + Seq::<ActionView>::empty() =~= about(before, path));
            } else {
                assert forall|j: int| 0 <= j < n - 1 implies (#[trigger] source[j]).0 != path by {
                    assert(ordered::precedes(source[j].0, source[n - 1].0));
                }
                assert(Seq::<ActionView>::empty() + own =~= own);
            }
        }
        if forall|i: int| 0 <= i < n ==> (#[trigger] source[i]).0 != path {
            assert(source[n - 1].0 != path);
            assert(Seq::<ActionView>::empty() + Seq::<ActionView>::empty()
                =~= Seq::<ActionView>::empty());
        }
    }
}

proof fn lemma_about_extras(
    source: TreeView,
    target: TreeView,
    n: int,
    is_delete: bool,
    path: Seq<char>,
)
    requires
        ordered::keys_in_order(target),
        0 <= n <= target.len(),
    ensures
        (forall|i: int|
            0 <= i < n && (#[trigger] target[i]).0 == path ==> !plan::is_extra(source, target, i)) ==> about(
            plan::extra_actions(source, target, n, is_delete),
            path,
        ) == Seq::<ActionView>::empty(),
        forall|i: int|
            0 <= i < n && (#[trigger] target[i]).0 == path && plan::is_extra(source, target, i) ==> about(
                plan::extra_actions(source, target, n, is_delete),
                path,
            ) == seq![plan::extra_action(path, target[i].1, is_delete)],
    decreases n,
{
    if n > 0 {
        lemma_about_extras(source, target, n - 1, is_delete, path);
        let before = plan::extra_actions(source, target, n - 1, is_delete);
        let action = plan::extra_action(target[n - 1].0, target[n - 1].1, is_delete);
        assert(before.push(action).drop_last() =~= before);
        ordered::lemma_precedes_irreflexive(path);
        assert forall|i: int|
            0 <= i < n && (#[trigger] target[i]).0 == path && plan::is_extra(
                source,
                target,
                i,
            ) implies about(plan::extra_actions(source, target, n, is_delete), path) == seq![
            plan::extra_action(path, target[i].1, is_delete),
        ] by {
            if i < n - 1 {
                assert(ordered::precedes(target[i].0, target[n - 1].0));
            } else {
                assert forall|j: int| 0 <= j < n - 1 implies (#[trigger] target[j]).0 != path by {
                    assert(ordered::precedes(target[j].0, target[n - 1].0));
                }
                assert(Seq::<ActionView>::empty().push(action) =~= seq![action]);
            }
        }
        if forall|i: int|
            0 <= i < n && (#[trigger] target[i]).0 == path ==> !plan::is_extra(source, target, i) {
            if target[n - 1].0 == path {
                assert(!plan::is_extra(source, target, n - 1));
            }
        }
    }
}

proof fn lemma_no_kind_conflict(source: TreeView, target: TreeView, n: int, i: int)
    requires
        0 <= i < n,
        plan::kind_conflicts(source, target, n) is Ok,
    ensures
        match ordered::lookup(target, source[i].0) {
            None => true,
            Some(dst) => plan::kind_conflict(source[i].0, source[i].1, dst) is Ok,
        },
    decreases n,
{
    if i < n - 1 {
        lemma_no_kind_conflict(source, target, n - 1, i);
    }
}

proof fn lemma_phases_of_one(action: ActionView)
    ensures
        forall|wanted: int|
            #![trigger exec::in_phase(seq![action], wanted)]
            exec::in_phase(seq![action], wanted) == (if exec::phase(action) == wanted {
                seq![action]
            } else {
                Seq::<ActionView>::empty()
            }),
{
    assert(seq![action].drop_last() =~= Seq::<ActionView>::empty());
    assert forall|wanted: int|
        #![trigger exec::in_phase(seq![action], wanted)]
        exec::in_phase(seq![action], wanted) == (if exec::phase(action) == wanted {
            seq![action]
        } else {
            Seq::<ActionView>::empty()
        }) by {
        assert(exec::in_phase(Seq::<ActionView>::empty(), wanted) =~= Seq::<ActionView>::empty());
        assert(Seq::<ActionView>::empty().push(action) =~= seq![action]);
    }
}

proof fn lemma_phases_of_two(a: ActionView, b: ActionView)
    requires
        exec::phase(a) == 0,
        exec::phase(b) == 4,
    ensures
        ({
            let both = seq![a, b];
            exec::in_phase(both, 0) + exec::in_phase(both, 1) + exec::in_phase(both, 2) + exec::in_phase(both, 3)
                + exec::in_phase(both, 4) == both
        }),
{
    let both = seq![a, b];
    let empty = Seq::<ActionView>::empty();
    assert(both.drop_last() =~= seq![a]);
    lemma_phases_of_one(a);
    assert(exec::in_phase(seq![a], 0) == seq![a]);
    assert(exec::in_phase(seq![a], 1) == empty);
    assert(exec::in_phase(seq![a], 2) == empty);
    assert(exec::in_phase(seq![a], 3) == empty);
    assert(exec::in_phase(seq![a], 4) == empty);
    assert(exec::in_phase(both, 4) == empty.push(b));
    assert(exec::in_phase(both, 0) + exec::in_phase(both, 1) + exec::in_phase(both, 2) + exec::in_phase(both, 3) + exec::in_phase(
        both,
        4,
    ) =~= both);
}

proof fn lemma_node_after_one(
    action: ActionView,
    start: Option<Node>,
    direction: SyncDirection,
    host: HostOs,
)
    ensures
        node_after(seq![action], plan::path_of(action), start, direction, host) == effect(
            start,
            action,
            direction,
            host,
        ),
{
    let empty = Seq::<ActionView>::empty();
    assert(seq![action].drop_last() =~= empty);
    assert(node_after(empty, plan::path_of(action), start, direction, host) == start);
}

/// Running a plan makes the tree like the one it copies: every entry of that
/// one then stands there with its kind, its size or its target, and its mode
/// and time as the other side keeps them. What only the written tree had is
/// gone where removal was asked for, and as it was where it was not; nothing
/// else comes into being.
pub proof fn a_run_makes_one_tree_like_the_other(
    source: TreeView,
    target: TreeView,
    options: PlanOptions,
    digests: digest::Digests,
    rules: SyncRules,
    path: Seq<char>,
)
    requires
        ordered::keys_in_order(source),
        ordered::keys_in_order(target),
        plan::plan_conflicts(source, target, rules) is Ok,
    ensures
        ({
            let start = node_of(ordered::lookup(target, path));
            let after = node_after(
                exec::scheduled(plan::plan(source, target, options, digests, rules.host)),
                path,
                start,
                options.direction,
                rules.host,
            );
            match ordered::lookup(source, path) {
                Some(src) => after is Some && stands_for(
                    after->0,
                    plan::as_written(src, options.direction, rules.host),
                ),
                None => after == (if options.is_delete && path.len() > 0 {
                    None::<Node>
                } else {
                    start
                }),
            }
        }),
{
    let host = rules.host;
    let direction = options.direction;
    let start = node_of(ordered::lookup(target, path));
    let whole = plan::plan(source, target, options, digests, host);
    let copied = plan::copy_actions(source, target, source.len() as int, options, digests, host);
    let extra = plan::extra_actions(source, target, target.len() as int, options.is_delete);
    let mine = about(whole, path);
    lemma_about_decides(exec::scheduled(whole), path, start, direction, host);
    lemma_about_scheduled(whole, path);
    lemma_about_add(copied, extra, path);
    lemma_about_copies(source, target, source.len() as int, options, digests, host, path);
    lemma_about_extras(source, target, target.len() as int, options.is_delete, path);
    ordered::lemma_lookup(source, path);
    ordered::lemma_lookup(target, path);
    let empty = Seq::<ActionView>::empty();
    let order = exec::in_phase(mine, 0) + exec::in_phase(mine, 1) + exec::in_phase(mine, 2) + exec::in_phase(mine, 3)
        + exec::in_phase(mine, 4);
    match ordered::lookup(source, path) {
        Some(src) => {
            let i = choose|i: int| 0 <= i < source.len() && #[trigger] source[i] == (path, src);
            lemma_no_kind_conflict(source, target, source.len() as int, i);
            assert(ordered::has_key(source, path));
            let own = own_actions(source, target, i, options, digests, host);
            assert(own + empty =~= own);
            assert(mine == own);
            crate::sync::plan::lemma_entry_fits(source, source.len() as int, i, rules);
            if own.len() == 1 {
                assert(own =~= seq![own[0]]);
                assert(plan::path_of(own[0]) == path);
                lemma_phases_of_one(own[0]);
                if exec::phase(own[0]) < 5 {
                    assert(order =~= seq![own[0]]);
                    lemma_node_after_one(own[0], start, direction, host);
                } else {
                    assert(order =~= empty);
                }
            } else {
                assert(own =~= seq![own[0], own[1]]);
                lemma_phases_of_two(own[0], own[1]);
                assert(own.drop_last() =~= seq![own[0]]);
                assert(plan::path_of(own[0]) == path);
                lemma_node_after_one(own[0], start, direction, host);
            }
        },
        None => {
            assert(about(copied, path) == empty);
            match ordered::lookup(target, path) {
                Some(dst) => {
                    let i = choose|i: int|
                        0 <= i < target.len() && #[trigger] target[i] == (path, dst);
                    if path.len() > 0 {
                        assert(plan::is_extra(source, target, i));
                        let action = plan::extra_action(path, dst, options.is_delete);
                        assert(mine =~= seq![action]);
                        lemma_phases_of_one(action);
                        lemma_node_after_one(action, start, direction, host);
                        if options.is_delete {
                            assert(order =~= seq![action]);
                        } else {
                            assert(order =~= empty);
                        }
                    } else {
                        assert(mine =~= empty);
                        assert(order =~= empty);
                    }
                },
                None => {
                    assert(mine =~= empty);
                    assert(order =~= empty);
                },
            }
        },
    }
}

proof fn lemma_about_plan(
    source: TreeView,
    target: TreeView,
    options: PlanOptions,
    digests: digest::Digests,
    host: HostOs,
    path: Seq<char>,
)
    requires
        ordered::keys_in_order(source),
        ordered::keys_in_order(target),
    ensures
        match ordered::lookup(source, path) {
            Some(src) => exists|i: int|
                0 <= i < source.len() && #[trigger] source[i] == (path, src) && about(
                    plan::plan(source, target, options, digests, host),
                    path,
                ) == own_actions(source, target, i, options, digests, host),
            None => match ordered::lookup(target, path) {
                Some(dst) => path.len() > 0 ==> about(
                    plan::plan(source, target, options, digests, host),
                    path,
                ) == seq![plan::extra_action(path, dst, options.is_delete)],
                None => about(plan::plan(source, target, options, digests, host), path) == Seq::<
                    ActionView,
                >::empty(),
            },
        },
{
    let copied = plan::copy_actions(source, target, source.len() as int, options, digests, host);
    let extra = plan::extra_actions(source, target, target.len() as int, options.is_delete);
    let mine = about(plan::plan(source, target, options, digests, host), path);
    let empty = Seq::<ActionView>::empty();
    lemma_about_add(copied, extra, path);
    lemma_about_copies(source, target, source.len() as int, options, digests, host, path);
    lemma_about_extras(source, target, target.len() as int, options.is_delete, path);
    ordered::lemma_lookup(source, path);
    ordered::lemma_lookup(target, path);
    match ordered::lookup(source, path) {
        Some(src) => {
            let i = choose|i: int| 0 <= i < source.len() && #[trigger] source[i] == (path, src);
            assert(ordered::has_key(source, path));
            let own = own_actions(source, target, i, options, digests, host);
            assert(own + empty =~= own);
            assert(mine == own);
        },
        None => {
            assert(about(copied, path) == empty);
            match ordered::lookup(target, path) {
                Some(dst) => {
                    let i = choose|i: int|
                        0 <= i < target.len() && #[trigger] target[i] == (path, dst);
                    if path.len() > 0 {
                        assert(plan::is_extra(source, target, i));
                        assert(mine =~= seq![plan::extra_action(path, dst, options.is_delete)]);
                    }
                },
                None => {
                    assert(mine =~= empty);
                },
            }
        },
    }
}

/// Whether a file of the written tree can be left as it is, by what is known of
/// both: it has the same size, and the same content by the digests where those
/// are compared, or the same time where they are not.
pub open spec fn counts_as_same(
    src: EntryView,
    dst: EntryView,
    is_checksum: bool,
    digests: Option<digest::DigestPairView>,
) -> bool {
    &&& dst.kind == SyncEntryKind::File
    &&& src.size == dst.size
    &&& if is_checksum {
        digests is Some && digests->0.source == digests->0.target
    } else {
        src.mtime_secs == dst.mtime_secs && src.mtime_nanos == dst.mtime_nanos
    }
}

/// What a plan does about a file of the tree to copy: one that is not there, or
/// does not count as the same, is copied with its size, mode and time; one that
/// does gets its mode and time where those differ, and is left alone where they do
/// not.
pub proof fn files_are_copied_where_they_differ(
    source: TreeView,
    target: TreeView,
    options: PlanOptions,
    digests: digest::Digests,
    host: HostOs,
    path: Seq<char>,
    src: EntryView,
)
    requires
        ordered::keys_in_order(source),
        ordered::keys_in_order(target),
        ordered::lookup(source, path) == Some(src),
        src.kind == SyncEntryKind::File,
    ensures
        ({
            let copied = ActionView::TransferFile {
                rel_path: path,
                size: src.size,
                mode: src.mode,
                mtime_secs: src.mtime_secs,
                mtime_nanos: src.mtime_nanos,
            };
            let adjusted = ActionView::UpdateFileMetadata {
                rel_path: path,
                mode: src.mode,
                mtime_secs: src.mtime_secs,
                mtime_nanos: src.mtime_nanos,
            };
            let done = about(plan::plan(source, target, options, digests, host), path);
            match ordered::lookup(target, path) {
                None => done == seq![copied],
                Some(dst) => {
                    let mode = security::mode_after(host, src.mode, options.direction, src.kind);
                    if !counts_as_same(
                        src,
                        dst,
                        options.is_checksum,
                        ordered::lookup(digests, path),
                    ) {
                        done == seq![copied]
                    } else if mode == dst.mode && src.mtime_secs == dst.mtime_secs
                        && src.mtime_nanos == dst.mtime_nanos {
                        done == seq![ActionView::Skip { rel_path: path }]
                    } else {
                        done == seq![adjusted]
                    }
                },
            }
        }),
{
    lemma_about_plan(source, target, options, digests, host, path);
}

/// What a plan does about a link: it is made where there is none or it leads
/// elsewhere, to where it leads in the tree to copy.
pub proof fn links_are_made_where_they_differ(
    source: TreeView,
    target: TreeView,
    options: PlanOptions,
    digests: digest::Digests,
    host: HostOs,
    path: Seq<char>,
    src: EntryView,
)
    requires
        ordered::keys_in_order(source),
        ordered::keys_in_order(target),
        ordered::lookup(source, path) == Some(src),
        src.kind == SyncEntryKind::Symlink,
        src.link_target is Some,
    ensures
        ({
            let made = ActionView::CreateSymlink { rel_path: path, target: src.link_target->0 };
            let done = about(plan::plan(source, target, options, digests, host), path);
            match ordered::lookup(target, path) {
                None => done == seq![made],
                Some(dst) => if dst.kind == SyncEntryKind::Symlink && dst.link_target
                    == src.link_target {
                    done == seq![ActionView::Skip { rel_path: path }]
                } else {
                    done == seq![made]
                },
            }
        }),
{
    lemma_about_plan(source, target, options, digests, host, path);
}

/// What a plan does about a directory: one that is not there is made and given its
/// mode and time; one that is gets them where they differ, or where anything in
/// the tree does, since writing into a directory changes its time.
pub proof fn directories_are_made_and_adjusted(
    source: TreeView,
    target: TreeView,
    options: PlanOptions,
    digests: digest::Digests,
    host: HostOs,
    path: Seq<char>,
    src: EntryView,
)
    requires
        ordered::keys_in_order(source),
        ordered::keys_in_order(target),
        ordered::lookup(source, path) == Some(src),
        src.kind == SyncEntryKind::Directory,
    ensures
        ({
            let adjusted = ActionView::UpdateDirMetadata {
                rel_path: path,
                mode: src.mode,
                mtime_secs: src.mtime_secs,
                mtime_nanos: src.mtime_nanos,
            };
            let done = about(plan::plan(source, target, options, digests, host), path);
            match ordered::lookup(target, path) {
                None => done == seq![
                    ActionView::CreateDir { rel_path: path, mode: src.mode },
                    adjusted,
                ],
                Some(dst) => {
                    &&& done == seq![adjusted] || done == seq![ActionView::Skip { rel_path: path }]
                    &&& done == seq![ActionView::Skip { rel_path: path }] ==> src.mtime_secs
                        == dst.mtime_secs && src.mtime_nanos == dst.mtime_nanos
                        && security::mode_after(host, src.mode, options.direction, src.kind)
                        == dst.mode
                    &&& done == seq![ActionView::Skip { rel_path: path }] ==> forall|other: Seq<char>|
                        #[trigger] ordered::lookup(source, other) is Some ==> ordered::lookup(
                            target,
                            other,
                        ) is Some && {
                            let a = ordered::lookup(source, other)->0;
                            let b = ordered::lookup(target, other)->0;
                            &&& a.kind == b.kind
                            &&& a.size == b.size
                            &&& a.mtime_secs == b.mtime_secs
                            &&& a.mtime_nanos == b.mtime_nanos
                            &&& a.link_target == b.link_target
                            &&& security::mode_after(host, a.mode, options.direction, a.kind)
                                == b.mode
                        }
                    &&& done == seq![ActionView::Skip { rel_path: path }] && options.is_delete
                        ==> forall|other: Seq<char>| #[trigger]
                        ordered::lookup(target, other) is Some ==> ordered::lookup(
                            source,
                            other,
                        ) is Some
                },
            }
        }),
{
    lemma_about_plan(source, target, options, digests, host, path);
    let done = about(plan::plan(source, target, options, digests, host), path);
    let skipped = seq![ActionView::Skip { rel_path: path }];
    if let Some(dst) = ordered::lookup(target, path) {
        assert(skipped[0] is Skip);
        if done == skipped {
            assert(done[0] is Skip);
            assert(!plan::tree_differs(source, target, options, host));
            if options.is_delete {
                assert forall|other: Seq<char>| #[trigger]
                    ordered::lookup(target, other) is Some implies ordered::lookup(
                    source,
                    other,
                ) is Some by {
                    ordered::lemma_lookup(target, other);
                    let b = ordered::lookup(target, other)->0;
                    let k = choose|k: int|
                        0 <= k < target.len() && #[trigger] target[k] == (other, b);
                    assert(target[k].0 == other);
                    assert(ordered::has_key(source, target[k].0));
                }
            }
            assert forall|other: Seq<char>| #[trigger]
                ordered::lookup(source, other) is Some implies ordered::lookup(target, other) is Some
                && {
                let a = ordered::lookup(source, other)->0;
                let b = ordered::lookup(target, other)->0;
                &&& a.kind == b.kind
                &&& a.size == b.size
                &&& a.mtime_secs == b.mtime_secs
                &&& a.mtime_nanos == b.mtime_nanos
                &&& a.link_target == b.link_target
                &&& security::mode_after(host, a.mode, options.direction, a.kind) == b.mode
            } by {
                ordered::lemma_lookup(source, other);
                let a = ordered::lookup(source, other)->0;
                let k = choose|k: int| 0 <= k < source.len() && #[trigger] source[k] == (other, a);
                assert(!plan::differs_at(source, target, k, options.direction, host));
            }
        }
    }
}

/// What a plan does about what only the written tree has: it is removed where that
/// was asked for, and left alone where it was not; the root is never removed, and
/// nothing is done about what neither tree has.
pub proof fn extras_go_where_that_was_asked_for(
    source: TreeView,
    target: TreeView,
    options: PlanOptions,
    digests: digest::Digests,
    host: HostOs,
    path: Seq<char>,
)
    requires
        ordered::keys_in_order(source),
        ordered::keys_in_order(target),
        ordered::lookup(source, path) is None,
        path.len() > 0,
    ensures
        ({
            let done = about(plan::plan(source, target, options, digests, host), path);
            match ordered::lookup(target, path) {
                None => done.len() == 0,
                Some(dst) => if options.is_delete {
                    done == seq![
                        ActionView::RemoveEntry {
                            rel_path: path,
                            is_dir: dst.kind == SyncEntryKind::Directory,
                        },
                    ]
                } else {
                    done == seq![ActionView::Skip { rel_path: path }]
                },
            }
        }),
{
    lemma_about_plan(source, target, options, digests, host, path);
}

/// What a file holds after an action, where copying brings the content of the
/// tree to copy.
pub open spec fn content_effect(
    content: Option<Seq<u8>>,
    action: ActionView,
    brought: Seq<u8>,
) -> Option<Seq<u8>> {
    match action {
        ActionView::TransferFile { .. } => Some(brought),
        ActionView::CreateSymlink { .. } | ActionView::RemoveEntry { .. } => None,
        _ => content,
    }
}

/// What a file holds once a list of actions is done, one after the other.
pub open spec fn content_after(
    actions: Seq<ActionView>,
    path: Seq<char>,
    start: Option<Seq<u8>>,
    brought: Seq<u8>,
) -> Option<Seq<u8>>
    decreases actions.len(),
{
    if actions.len() == 0 {
        start
    } else {
        let before = content_after(actions.drop_last(), path, start, brought);
        if plan::path_of(actions.last()) == path {
            content_effect(before, actions.last(), brought)
        } else {
            before
        }
    }
}

proof fn lemma_content_about(
    actions: Seq<ActionView>,
    path: Seq<char>,
    start: Option<Seq<u8>>,
    brought: Seq<u8>,
)
    ensures
        content_after(actions, path, start, brought) == content_after(
            about(actions, path),
            path,
            start,
            brought,
        ),
    decreases actions.len(),
{
    if actions.len() > 0 {
        lemma_content_about(actions.drop_last(), path, start, brought);
        if plan::path_of(actions.last()) == path {
            assert(about(actions, path).drop_last() =~= about(actions.drop_last(), path));
        }
    }
}

/// After a run every file of the tree to copy holds what it holds there, provided
/// that what counts as the same is: files of one size whose digests are equal, or,
/// where digests are not compared, whose times are.
pub proof fn a_run_brings_the_content_of_every_file(
    source: TreeView,
    target: TreeView,
    options: PlanOptions,
    digests: digest::Digests,
    host: HostOs,
    path: Seq<char>,
    src: EntryView,
    before: Seq<u8>,
    content: Seq<u8>,
)
    requires
        ordered::keys_in_order(source),
        ordered::keys_in_order(target),
        ordered::lookup(source, path) == Some(src),
        src.kind == SyncEntryKind::File,
        ordered::lookup(target, path) matches Some(dst) && counts_as_same(
            src,
            dst,
            options.is_checksum,
            ordered::lookup(digests, path),
        ) ==> before == content,
    ensures
        content_after(
            exec::scheduled(plan::plan(source, target, options, digests, host)),
            path,
            if ordered::lookup(target, path) is Some {
                Some(before)
            } else {
                None
            },
            content,
        ) == Some(content),
{
    let whole = plan::plan(source, target, options, digests, host);
    let start = if ordered::lookup(target, path) is Some {
        Some(before)
    } else {
        None
    };
    files_are_copied_where_they_differ(source, target, options, digests, host, path, src);
    lemma_content_about(exec::scheduled(whole), path, start, content);
    lemma_about_scheduled(whole, path);
    let mine = about(whole, path);
    let order = exec::in_phase(mine, 0) + exec::in_phase(mine, 1) + exec::in_phase(mine, 2)
        + exec::in_phase(mine, 3) + exec::in_phase(mine, 4);
    assert(mine =~= seq![mine[0]]);
    lemma_phases_of_one(mine[0]);
    let empty = Seq::<ActionView>::empty();
    assert(content_after(empty, path, start, content) == start);
    if mine[0] is Skip {
        assert(order =~= empty);
    } else {
        assert(order =~= seq![mine[0]]);
        assert(order.drop_last() =~= empty);
        assert(plan::path_of(mine[0]) == path);
    }
}

/// The order of a run, by what its steps do: directories are made first, then
/// files and links are written, then files adjusted, then extras removed, and
/// directories are adjusted last. Everything that is planned is done once, but
/// for what is skipped.
pub proof fn runs_write_then_remove_then_adjust(actions: Seq<ActionView>, i: int, j: int)
    requires
        0 <= i < j < exec::scheduled(actions).len(),
    ensures
        ({
            let (a, b) = (exec::scheduled(actions)[i], exec::scheduled(actions)[j]);
            &&& !(a is Skip) && !(b is Skip)
            &&& b is CreateDir ==> a is CreateDir
            &&& b is TransferFile || b is CreateSymlink ==> a is CreateDir || a is TransferFile
                || a is CreateSymlink
            &&& b is UpdateFileMetadata ==> !(a is RemoveEntry) && !(a is UpdateDirMetadata)
            &&& b is RemoveEntry ==> !(a is UpdateDirMetadata)
        }),
{
    runs_go_in_order(actions, i, j);
}

/// A run does everything its plan says about a path and nothing else: what is not
/// skipped of the plan is in the run, in some order.
pub proof fn runs_do_all_of_their_plan(actions: Seq<ActionView>, action: ActionView)
    ensures
        exec::scheduled(actions).to_multiset().count(action) == (if action is Skip {
            0
        } else {
            actions.to_multiset().count(action)
        }),
{
    broadcast use vstd::seq_lib::group_to_multiset_ensures;

    let p0 = exec::by_length(exec::in_phase(actions, 0), false);
    let p1 = exec::in_phase(actions, 1);
    let p2 = exec::in_phase(actions, 2);
    let p3 = exec::by_length(exec::in_phase(actions, 3), true);
    let p4 = exec::by_length(exec::in_phase(actions, 4), true);
    lemma_by_length(exec::in_phase(actions, 0), false);
    lemma_by_length(exec::in_phase(actions, 3), true);
    lemma_by_length(exec::in_phase(actions, 4), true);
    lemma_phase_count(actions, 0, action);
    lemma_phase_count(actions, 1, action);
    lemma_phase_count(actions, 2, action);
    lemma_phase_count(actions, 3, action);
    lemma_phase_count(actions, 4, action);
    vstd::seq_lib::lemma_multiset_commutative(p0, p1);
    vstd::seq_lib::lemma_multiset_commutative(p0 + p1, p2);
    vstd::seq_lib::lemma_multiset_commutative(p0 + p1 + p2, p3);
    vstd::seq_lib::lemma_multiset_commutative(p0 + p1 + p2 + p3, p4);
}

proof fn lemma_phase_count(actions: Seq<ActionView>, wanted: int, action: ActionView)
    ensures
        exec::in_phase(actions, wanted).to_multiset().count(action) == (if exec::phase(action)
            == wanted {
            actions.to_multiset().count(action)
        } else {
            0
        }),
    decreases actions.len(),
{
    broadcast use vstd::seq_lib::group_to_multiset_ensures;

    if actions.len() > 0 {
        lemma_phase_count(actions.drop_last(), wanted, action);
        assert(actions.drop_last().push(actions.last()) =~= actions);
    }
}

} // verus!
