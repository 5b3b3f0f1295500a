//! What a synchronisation does: the actions that make one tree like another.

use crate::error::{self, Error, Refusal};
use crate::host::HostOs;
use crate::ordered::{self, TextMap};
use crate::sync::entry::{
    EntryView, SyncDirection, SyncEntry, SyncEntryKind, SyncRules, Tree, TreeView,
};
use crate::sync::digest::{DigestPair, DigestPairView, Digests, is_same_content};
use crate::sync::links::{self, validate_download_links};
use crate::sync::names::{self, HostNames, HostNamesView};
use crate::sync::security::{self, effective_mode, validate_manifest};
use crate::text::{self, same_optional_text, same_text};
use vstd::prelude::*;

verus! {

/// One thing a synchronisation does to the tree it writes.
#[derive(Debug, PartialEq, Eq)]
pub enum PlanAction {
    CreateDir { rel_path: String, mode: u32 },
    TransferFile { rel_path: String, size: u64, mode: u32, mtime_secs: i64, mtime_nanos: u32 },
    CreateSymlink { rel_path: String, target: String },
    UpdateFileMetadata { rel_path: String, mode: u32, mtime_secs: i64, mtime_nanos: u32 },
    UpdateDirMetadata { rel_path: String, mode: u32, mtime_secs: i64, mtime_nanos: u32 },
    RemoveEntry { rel_path: String, is_dir: bool },
    Skip { rel_path: String },
}

#[verifier::ext_equal]
pub enum ActionView {
    CreateDir { rel_path: Seq<char>, mode: u32 },
    TransferFile { rel_path: Seq<char>, size: u64, mode: u32, mtime_secs: i64, mtime_nanos: u32 },
    CreateSymlink { rel_path: Seq<char>, target: Seq<char> },
    UpdateFileMetadata { rel_path: Seq<char>, mode: u32, mtime_secs: i64, mtime_nanos: u32 },
    UpdateDirMetadata { rel_path: Seq<char>, mode: u32, mtime_secs: i64, mtime_nanos: u32 },
    RemoveEntry { rel_path: Seq<char>, is_dir: bool },
    Skip { rel_path: Seq<char> },
}

impl View for PlanAction {
    type V = ActionView;

    open spec fn view(&self) -> ActionView {
        match self {
            PlanAction::CreateDir { rel_path, mode } => ActionView::CreateDir {
                rel_path: rel_path@,
                mode: *mode,
            },
            PlanAction::TransferFile { rel_path, size, mode, mtime_secs, mtime_nanos } => ActionView::TransferFile {
                rel_path: rel_path@,
                size: *size,
                mode: *mode,
                mtime_secs: *mtime_secs,
                mtime_nanos: *mtime_nanos,
            },
            PlanAction::CreateSymlink { rel_path, target } => ActionView::CreateSymlink {
                rel_path: rel_path@,
                target: target@,
            },
            PlanAction::UpdateFileMetadata { rel_path, mode, mtime_secs, mtime_nanos } => ActionView::UpdateFileMetadata {
                rel_path: rel_path@,
                mode: *mode,
                mtime_secs: *mtime_secs,
                mtime_nanos: *mtime_nanos,
            },
            PlanAction::UpdateDirMetadata { rel_path, mode, mtime_secs, mtime_nanos } => ActionView::UpdateDirMetadata {
                rel_path: rel_path@,
                mode: *mode,
                mtime_secs: *mtime_secs,
                mtime_nanos: *mtime_nanos,
            },
            PlanAction::RemoveEntry { rel_path, is_dir } => ActionView::RemoveEntry {
                rel_path: rel_path@,
                is_dir: *is_dir,
            },
            PlanAction::Skip { rel_path } => ActionView::Skip { rel_path: rel_path@ },
        }
    }
}

/// The path an action is about.
pub open spec fn path_of(action: ActionView) -> Seq<char> {
    match action {
        ActionView::CreateDir { rel_path, .. } => rel_path,
        ActionView::TransferFile { rel_path, .. } => rel_path,
        ActionView::CreateSymlink { rel_path, .. } => rel_path,
        ActionView::UpdateFileMetadata { rel_path, .. } => rel_path,
        ActionView::UpdateDirMetadata { rel_path, .. } => rel_path,
        ActionView::RemoveEntry { rel_path, .. } => rel_path,
        ActionView::Skip { rel_path } => rel_path,
    }
}

/// What is held against the kinds two trees have under one path.
pub open spec fn kind_conflict(path: Seq<char>, src: EntryView, dst: EntryView) -> Result<(), Refusal> {
    if src.kind == SyncEntryKind::Directory && dst.kind != SyncEntryKind::Directory {
        Err(
            error::refusal(
                "cannot overwrite file/symlink '"@ + path
                    + "' with a directory; remove the file/symlink first"@,
            ),
        )
    } else if src.kind != SyncEntryKind::Directory && dst.kind == SyncEntryKind::Directory {
        Err(
            error::refusal(
                "cannot overwrite directory '"@ + path
                    + "' with a file/symlink; remove the directory first"@,
            ),
        )
    } else {
        Ok(())
    }
}

/// The first conflict of kinds among the first `n` paths of a tree.
pub open spec fn kind_conflicts(source: TreeView, target: TreeView, n: int) -> Result<(), Refusal>
    decreases n,
{
    if n <= 0 {
        Ok(())
    } else {
        match kind_conflicts(source, target, n - 1) {
            Err(refused) => Err(refused),
            Ok(_) => match ordered::lookup(target, source[n - 1].0) {
                None => Ok(()),
                Some(dst) => kind_conflict(source[n - 1].0, source[n - 1].1, dst),
            },
        }
    }
}

/// What is held against writing one tree over another.
pub open spec fn plan_conflicts(source: TreeView, target: TreeView, rules: SyncRules) -> Result<
    (),
    Refusal,
> {
    if security::manifest_verdict(source, rules) is Err {
        security::manifest_verdict(source, rules)
    } else if security::manifest_verdict(target, rules) is Err {
        security::manifest_verdict(target, rules)
    } else {
        kind_conflicts(source, target, source.len() as int)
    }
}

proof fn lemma_first_conflict(source: TreeView, target: TreeView, n: int, m: int)
    requires
        0 <= n <= m,
        kind_conflicts(source, target, n) is Err,
    ensures
        kind_conflicts(source, target, m) == kind_conflicts(source, target, n),
    decreases m - n,
{
    if n < m {
        lemma_first_conflict(source, target, n, m - 1);
    }
}

/// Refuses trees that are malformed, or that hold a directory where the other
/// holds something else.
pub fn validate_plan_conflicts(source: &Tree, target: &Tree, rules: &SyncRules) -> (verdict: Result<
    (),
    Error,
>)
    ensures
        error::outcome(verdict) == plan_conflicts(source@, target@, *rules),
{
    let verdict = validate_manifest(source, rules);
    if verdict.is_err() {
        return verdict;
    }
    let verdict = validate_manifest(target, rules);
    if verdict.is_err() {
        return verdict;
    }
    let n: usize = source.len();
    let mut i: usize = 0;
    while i < n
        invariant
            i <= n == source@.len(),
            security::manifest_verdict(source@, *rules) is Ok,
            security::manifest_verdict(target@, *rules) is Ok,
            kind_conflicts(source@, target@, i as int) is Ok,
        decreases n - i,
    {
        let path = source.key_at(i);
        let src = source.value_at(i);
        proof {
            if kind_conflicts(source@, target@, i + 1) is Err {
                lemma_first_conflict(source@, target@, i + 1, n as int);
            }
        }
        if let Some(dst) = target.get(path) {
            if src.kind == SyncEntryKind::Directory && dst.kind != SyncEntryKind::Directory {
                let mut message: String = "cannot overwrite file/symlink '".to_owned();
                message.append(path);
                message.append("' with a directory; remove the file/symlink first");
                return Err(Error::new(message));
            }
            if src.kind != SyncEntryKind::Directory && dst.kind == SyncEntryKind::Directory {
                let mut message: String = "cannot overwrite directory '".to_owned();
                message.append(path);
                message.append("' with a file/symlink; remove the directory first");
                return Err(Error::new(message));
            }
        }
        i = i + 1;
    }
    Ok(())
}

/// What a plan is made for.
#[derive(Debug, Clone, Copy, PartialEq, Eq, Structural)]
pub struct PlanOptions {
    pub is_checksum: bool,
    pub is_delete: bool,
    pub direction: SyncDirection,
}

/// An entry as it is once it has been written on the other side.
pub open spec fn as_written(src: EntryView, direction: SyncDirection, host: HostOs) -> EntryView {
    EntryView { mode: security::mode_after(host, src.mode, direction, src.kind), ..src }
}

/// Whether two entries describe the same thing.
pub open spec fn same_entry(a: EntryView, b: EntryView) -> bool {
    &&& a.relative_path == b.relative_path
    &&& a.kind == b.kind
    &&& a.size == b.size
    &&& a.mode == b.mode
    &&& a.mtime_secs == b.mtime_secs
    &&& a.mtime_nanos == b.mtime_nanos
    &&& a.link_target == b.link_target
}

/// Whether the tree to write lacks an entry, or has another one.
pub open spec fn differs_at(
    source: TreeView,
    target: TreeView,
    i: int,
    direction: SyncDirection,
    host: HostOs,
) -> bool {
    match ordered::lookup(target, source[i].0) {
        None => true,
        Some(dst) => !same_entry(as_written(source[i].1, direction, host), dst),
    }
}

/// Whether anything below the root will change.
pub open spec fn tree_differs(
    source: TreeView,
    target: TreeView,
    options: PlanOptions,
    host: HostOs,
) -> bool {
    ||| exists|i: int|
        0 <= i < source.len() && #[trigger] differs_at(source, target, i, options.direction, host)
    ||| options.is_delete && exists|i: int|
        0 <= i < target.len() && !ordered::has_key(source, (#[trigger] target[i]).0)
}

fn is_same_entry(src: &SyncEntry, mode: u32, dst: &SyncEntry) -> (same: bool)
    ensures
        same == same_entry(EntryView { mode, ..src@ }, dst@),
{
    same_text(src.relative_path.as_str(), dst.relative_path.as_str()) && src.kind == dst.kind
        && src.size == dst.size && mode == dst.mode && src.mtime_secs == dst.mtime_secs
        && src.mtime_nanos == dst.mtime_nanos && same_optional_text(
        &src.link_target,
        &dst.link_target,
    )
}

fn does_tree_differ(source: &Tree, target: &Tree, options: PlanOptions, host: HostOs) -> (yes: bool)
    ensures
        yes == tree_differs(source@, target@, options, host),
{
    let n: usize = source.len();
    let mut i: usize = 0;
    while i < n
        invariant
            i <= n == source@.len(),
            forall|j: int|
                0 <= j < i ==> !#[trigger] differs_at(
                    source@,
                    target@,
                    j,
                    options.direction,
                    host,
                ),
        decreases n - i,
    {
        let src = source.value_at(i);
        let mode = effective_mode(host, src.mode, options.direction, src.kind);
        let differs = match target.get(source.key_at(i)) {
            None => true,
            Some(dst) => !is_same_entry(src, mode, dst),
        };
        proof {
            assert(differs == differs_at(source@, target@, i as int, options.direction, host));
        }
        if differs {
            return true;
        }
        i = i + 1;
    }
    if options.is_delete {
        let m: usize = target.len();
        let mut j: usize = 0;
        while j < m
            invariant
                j <= m == target@.len(),
                options.is_delete,
                forall|k: int| 0 <= k < j ==> ordered::has_key(source@, (#[trigger] target@[k]).0),
            decreases m - j,
        {
            if !source.contains_key(target.key_at(j)) {
                proof {
                    assert(!ordered::has_key(source@, target@[j as int].0));
                }
                return true;
            }
            j = j + 1;
        }
    }
    false
}

/// Whether the content of a file has to be compared: the other tree has a
/// file of its size there.
pub open spec fn comparable(src: EntryView, dst: EntryView) -> bool {
    src.kind == SyncEntryKind::File && dst.kind == SyncEntryKind::File && src.size == dst.size
}

/// Whether the entry at `i` has to be compared by its content.
pub open spec fn to_compare(source: TreeView, target: TreeView, i: int, options: PlanOptions) -> bool {
    options.is_checksum && match ordered::lookup(target, source[i].0) {
        Some(dst) => comparable(source[i].1, dst),
        None => false,
    }
}

/// The paths among the first `n` that have to be compared by their content.
pub open spec fn compared_paths(
    source: TreeView,
    target: TreeView,
    n: int,
    options: PlanOptions,
) -> Seq<Seq<char>>
    decreases n,
{
    if n <= 0 {
        Seq::empty()
    } else {
        let before = compared_paths(source, target, n - 1, options);
        if to_compare(source, target, n - 1, options) {
            before.push(source[n - 1].0)
        } else {
            before
        }
    }
}

/// The files whose digests a plan asks for, in the order it asks for them.
pub fn files_to_compare(source: &Tree, target: &Tree, options: PlanOptions) -> (paths: Vec<String>)
    ensures
        text::texts(paths@) == compared_paths(source@, target@, source@.len() as int, options),
{
    let n: usize = source.len();
    let mut paths: Vec<String> = Vec::new();
    let mut i: usize = 0;
    proof {
        assert(text::texts(paths@) =~= Seq::empty());
    }
    while i < n
        invariant
            i <= n == source@.len(),
            text::texts(paths@) == compared_paths(source@, target@, i as int, options),
        decreases n - i,
    {
        let src = source.value_at(i);
        let wanted = options.is_checksum && match target.get(source.key_at(i)) {
            Some(dst) => src.kind == SyncEntryKind::File && dst.kind == SyncEntryKind::File
                && src.size == dst.size,
            None => false,
        };
        if wanted {
            let ghost before = paths@;
            paths.push(source.key_at(i).to_owned());
            proof {
                crate::text::lemma_texts_push(before, paths@.last());
            }
        }
        i = i + 1;
    }
    paths
}

pub open spec fn transfer(path: Seq<char>, src: EntryView) -> ActionView {
    ActionView::TransferFile {
        rel_path: path,
        size: src.size,
        mode: src.mode,
        mtime_secs: src.mtime_secs,
        mtime_nanos: src.mtime_nanos,
    }
}

pub open spec fn file_metadata(path: Seq<char>, src: EntryView) -> ActionView {
    ActionView::UpdateFileMetadata {
        rel_path: path,
        mode: src.mode,
        mtime_secs: src.mtime_secs,
        mtime_nanos: src.mtime_nanos,
    }
}

pub open spec fn dir_metadata(path: Seq<char>, src: EntryView) -> ActionView {
    ActionView::UpdateDirMetadata {
        rel_path: path,
        mode: src.mode,
        mtime_secs: src.mtime_secs,
        mtime_nanos: src.mtime_nanos,
    }
}

pub open spec fn same_mtime(a: EntryView, b: EntryView) -> bool {
    a.mtime_secs == b.mtime_secs && a.mtime_nanos == b.mtime_nanos
}

/// Whether a file has two digests, and they are the same.
pub open spec fn same_digests(digests: Option<DigestPairView>) -> bool {
    match digests {
        Some(pair) => pair.source == pair.target,
        None => false,
    }
}

/// Whether a file counts as unchanged: by its content where contents are
/// compared, else by its time.
pub open spec fn is_unchanged(
    src: EntryView,
    dst: EntryView,
    is_checksum: bool,
    digests: Option<DigestPairView>,
) -> bool {
    if is_checksum {
        same_digests(digests)
    } else {
        same_mtime(src, dst)
    }
}

/// What is done about a file that the other tree has something in place of;
/// `identical` says whether two files of one size have the same content.
pub open spec fn file_update(
    path: Seq<char>,
    src: EntryView,
    dst: EntryView,
    identical: bool,
    direction: SyncDirection,
    host: HostOs,
) -> ActionView {
    if dst.kind != SyncEntryKind::File || src.size != dst.size || !identical {
        transfer(path, src)
    } else if security::mode_after(host, src.mode, direction, src.kind) != dst.mode || !same_mtime(src, dst) {
        file_metadata(path, src)
    } else {
        ActionView::Skip { rel_path: path }
    }
}

pub fn plan_file_update(
    rel_path: &str,
    src: &SyncEntry,
    dst: &SyncEntry,
    is_checksum: bool,
    digests: Option<&DigestPair>,
    direction: SyncDirection,
    host: HostOs,
) -> (action: PlanAction)
    ensures
        action@ == file_update(
            rel_path@,
            src@,
            dst@,
            is_unchanged(
                src@,
                dst@,
                is_checksum,
                match digests {
                    Some(pair) => Some(pair@),
                    None => None,
                },
            ),
            direction,
            host,
        ),
{
    let is_identical = if is_checksum {
        match digests {
            Some(pair) => is_same_content(pair),
            None => false,
        }
    } else {
        src.mtime_secs == dst.mtime_secs && src.mtime_nanos == dst.mtime_nanos
    };
    if dst.kind != SyncEntryKind::File || src.size != dst.size || !is_identical {
        return PlanAction::TransferFile {
            rel_path: rel_path.to_owned(),
            size: src.size,
            mode: src.mode,
            mtime_secs: src.mtime_secs,
            mtime_nanos: src.mtime_nanos,
        };
    }
    let mode_differs = effective_mode(host, src.mode, direction, src.kind) != dst.mode;
    let mtime_differs = src.mtime_secs != dst.mtime_secs || src.mtime_nanos != dst.mtime_nanos;
    if mode_differs || mtime_differs {
        PlanAction::UpdateFileMetadata {
            rel_path: rel_path.to_owned(),
            mode: src.mode,
            mtime_secs: src.mtime_secs,
            mtime_nanos: src.mtime_nanos,
        }
    } else {
        PlanAction::Skip { rel_path: rel_path.to_owned() }
    }
}

/// What is done about one entry of the tree to copy.
pub open spec fn entry_actions(
    path: Seq<char>,
    src: EntryView,
    dst: Option<EntryView>,
    differs: bool,
    options: PlanOptions,
    digests: Digests,
    host: HostOs,
) -> Seq<ActionView> {
    match dst {
        None => match src.kind {
            SyncEntryKind::Directory => seq![
                ActionView::CreateDir { rel_path: path, mode: src.mode },
                dir_metadata(path, src),
            ],
            SyncEntryKind::File => seq![transfer(path, src)],
            SyncEntryKind::Symlink => seq![
                ActionView::CreateSymlink { rel_path: path, target: src.link_target->0 },
            ],
        },
        Some(dst) => match src.kind {
            SyncEntryKind::Directory => if security::mode_after(host, src.mode, options.direction, src.kind)
                != dst.mode || !same_mtime(src, dst) || differs {
                seq![dir_metadata(path, src)]
            } else {
                seq![ActionView::Skip { rel_path: path }]
            },
            SyncEntryKind::Symlink => if dst.kind != SyncEntryKind::Symlink || src.link_target
                != dst.link_target {
                seq![ActionView::CreateSymlink { rel_path: path, target: src.link_target->0 }]
            } else {
                seq![ActionView::Skip { rel_path: path }]
            },
            SyncEntryKind::File => seq![
                file_update(
                    path,
                    src,
                    dst,
                    is_unchanged(src, dst, options.is_checksum, ordered::lookup(digests, path)),
                    options.direction,
                    host,
                ),
            ],
        },
    }
}

/// What is done about the first `n` entries of the tree to copy.
pub open spec fn copy_actions(
    source: TreeView,
    target: TreeView,
    n: int,
    options: PlanOptions,
    digests: Digests,
    host: HostOs,
) -> Seq<ActionView>
    decreases n,
{
    if n <= 0 {
        Seq::empty()
    } else {
        copy_actions(source, target, n - 1, options, digests, host) + entry_actions(
            source[n - 1].0,
            source[n - 1].1,
            ordered::lookup(target, source[n - 1].0),
            tree_differs(source, target, options, host),
            options,
            digests,
            host,
        )
    }
}

/// What is done about one entry that only the tree to write has.
pub open spec fn extra_action(path: Seq<char>, dst: EntryView, is_delete: bool) -> ActionView {
    if is_delete {
        ActionView::RemoveEntry { rel_path: path, is_dir: dst.kind == SyncEntryKind::Directory }
    } else {
        ActionView::Skip { rel_path: path }
    }
}

/// Whether only the tree to write has the entry at `i`, and it is not the root.
pub open spec fn is_extra(source: TreeView, target: TreeView, i: int) -> bool {
    target[i].0.len() > 0 && !ordered::has_key(source, target[i].0)
}

/// What is done about the first `n` entries of the tree to write that the
/// other one lacks.
pub open spec fn extra_actions(source: TreeView, target: TreeView, n: int, is_delete: bool) -> Seq<
    ActionView,
>
    decreases n,
{
    if n <= 0 {
        Seq::empty()
    } else {
        let before = extra_actions(source, target, n - 1, is_delete);
        if is_extra(source, target, n - 1) {
            before.push(extra_action(target[n - 1].0, target[n - 1].1, is_delete))
        } else {
            before
        }
    }
}

/// Everything a synchronisation does.
pub open spec fn plan(
    source: TreeView,
    target: TreeView,
    options: PlanOptions,
    digests: Digests,
    host: HostOs,
) -> Seq<ActionView> {
    copy_actions(source, target, source.len() as int, options, digests, host) + extra_actions(
        source,
        target,
        target.len() as int,
        options.is_delete,
    )
}

/// What is held against a synchronisation before anything is planned.
pub open spec fn plan_verdict(
    source: TreeView,
    target: TreeView,
    direction: SyncDirection,
    names: Result<HostNamesView, Refusal>,
    rules: SyncRules,
) -> Result<(), Refusal> {
    if plan_conflicts(source, target, rules) is Err {
        plan_conflicts(source, target, rules)
    } else if direction == SyncDirection::GuestToHost {
        match names {
            Err(refused) => Err(refused),
            Ok(tried) => match links::download_links(source, target, tried.answers, rules) {
                Err(refused) => Err(refused),
                Ok(_) => tried.closed,
            },
        }
    } else {
        Ok(())
    }
}

pub proof fn lemma_entry_fits(entries: TreeView, n: int, i: int, rules: SyncRules)
    requires
        0 <= i < n,
        security::verdict_on_first(entries, n, rules) is Ok,
    ensures
        security::entry_verdict(entries, entries[i].0, entries[i].1, rules) is Ok,
    decreases n,
{
    if i < n - 1 {
        lemma_entry_fits(entries, n - 1, i, rules);
    }
}

fn plan_entry(
    rel_path: &str,
    src: &SyncEntry,
    dst: Option<&SyncEntry>,
    differs: bool,
    options: PlanOptions,
    digests: &TextMap<DigestPair>,
    host: HostOs,
    actions: &mut Vec<PlanAction>,
)
    requires
        src.kind == SyncEntryKind::Symlink ==> src.link_target is Some,
    ensures
        text::views(final(actions)@) == text::views(old(actions)@) + entry_actions(
            rel_path@,
            src@,
            match dst {
                Some(entry) => Some(entry@),
                None => None,
            },
            differs,
            options,
            digests@,
            host,
        ),
{
    let ghost start = actions@;
    let ghost expected = entry_actions(
        rel_path@,
        src@,
        match dst {
            Some(entry) => Some(entry@),
            None => None,
        },
        differs,
        options,
        digests@,
        host,
    );
    match dst {
        None => match src.kind {
            SyncEntryKind::Directory => {
                actions.push(
                    PlanAction::CreateDir { rel_path: rel_path.to_owned(), mode: src.mode },
                );
                actions.push(
                    PlanAction::UpdateDirMetadata {
                        rel_path: rel_path.to_owned(),
                        mode: src.mode,
                        mtime_secs: src.mtime_secs,
                        mtime_nanos: src.mtime_nanos,
                    },
                );
            },
            SyncEntryKind::File => {
                actions.push(
                    PlanAction::TransferFile {
                        rel_path: rel_path.to_owned(),
                        size: src.size,
                        mode: src.mode,
                        mtime_secs: src.mtime_secs,
                        mtime_nanos: src.mtime_nanos,
                    },
                );
            },
            SyncEntryKind::Symlink => {
                if let Some(target) = &src.link_target {
                    actions.push(
                        PlanAction::CreateSymlink {
                            rel_path: rel_path.to_owned(),
                            target: target.as_str().to_owned(),
                        },
                    );
                }
            },
        },
        Some(dst) => match src.kind {
            SyncEntryKind::Directory => {
                let mode_differs = effective_mode(host, src.mode, options.direction, src.kind)
                    != dst.mode;
                let mtime_differs = src.mtime_secs != dst.mtime_secs || src.mtime_nanos
                    != dst.mtime_nanos;
                if mode_differs || mtime_differs || differs {
                    actions.push(
                        PlanAction::UpdateDirMetadata {
                            rel_path: rel_path.to_owned(),
                            mode: src.mode,
                            mtime_secs: src.mtime_secs,
                            mtime_nanos: src.mtime_nanos,
                        },
                    );
                } else {
                    actions.push(PlanAction::Skip { rel_path: rel_path.to_owned() });
                }
            },
            SyncEntryKind::Symlink => {
                if dst.kind != SyncEntryKind::Symlink || !same_optional_text(
                    &src.link_target,
                    &dst.link_target,
                ) {
                    if let Some(target) = &src.link_target {
                        actions.push(
                            PlanAction::CreateSymlink {
                                rel_path: rel_path.to_owned(),
                                target: target.as_str().to_owned(),
                            },
                        );
                    }
                } else {
                    actions.push(PlanAction::Skip { rel_path: rel_path.to_owned() });
                }
            },
            SyncEntryKind::File => {
                actions.push(
                    plan_file_update(
                        rel_path,
                        src,
                        dst,
                        options.is_checksum,
                        digests.get(rel_path),
                        options.direction,
                        host,
                    ),
                );
            },
        },
    }
    proof {
        assert(text::views(actions@) =~= text::views(start) + expected);
    }
}

/// Plans a synchronisation; `digests` holds those of `files_to_compare`, a file
/// being unchanged where its two are equal. One without digests counts as
/// changed. `names` is what came of trying the names of both trees on a host
/// that is written to; where the box is, nothing is asked of it.
pub fn build_plan(
    source: &Tree,
    target: &Tree,
    options: PlanOptions,
    digests: &TextMap<DigestPair>,
    names: Result<HostNames, Error>,
    rules: &SyncRules,
) -> (planned: Result<Vec<PlanAction>, Error>)
    ensures
        ({
            let verdict = plan_verdict(
                source@,
                target@,
                options.direction,
                names::tried(names),
                *rules,
            );
            match planned {
                Ok(actions) => verdict is Ok && text::views(actions@) == plan(
                    source@,
                    target@,
                    options,
                    digests@,
                    rules.host,
                ),
                Err(error) => verdict == Err::<(), _>(error@),
            }
        }),
{
    if let Err(error) = validate_plan_conflicts(source, target, rules) {
        return Err(error);
    }
    if options.direction == SyncDirection::GuestToHost {
        let tried = match names {
            Ok(tried) => tried,
            Err(error) => {
                return Err(error);
            },
        };
        if let Err(error) = validate_download_links(source, target, &tried.answers, rules) {
            return Err(error);
        }
        if let Err(error) = tried.closed {
            return Err(error);
        }
    }
    let differs = does_tree_differ(source, target, options, rules.host);
    let mut actions: Vec<PlanAction> = Vec::new();
    let n: usize = source.len();
    let mut i: usize = 0;
    proof {
        assert(text::views(actions@) =~= Seq::empty());
    }
    while i < n
        invariant
            i <= n == source@.len(),
            security::manifest_verdict(source@, *rules) is Ok,
            differs == tree_differs(source@, target@, options, rules.host),
            text::views(actions@) == copy_actions(
                source@,
                target@,
                i as int,
                options,
                digests@,
                rules.host,
            ),
        decreases n - i,
    {
        let rel_path = source.key_at(i);
        let src = source.value_at(i);
        proof {
            lemma_entry_fits(source@, n as int, i as int, *rules);
        }
        plan_entry(
            rel_path,
            src,
            target.get(rel_path),
            differs,
            options,
            digests,
            rules.host,
            &mut actions,
        );
        i = i + 1;
    }
    let ghost copied = text::views(actions@);
    let m: usize = target.len();
    let mut j: usize = 0;
    proof {
        assert(copied =~= copied + extra_actions(source@, target@, 0, options.is_delete));
    }
    while j < m
        invariant
            j <= m == target@.len(),
            text::views(actions@) == copied + extra_actions(
                source@,
                target@,
                j as int,
                options.is_delete,
            ),
        decreases m - j,
    {
        let rel_path = target.key_at(j);
        let ghost before = actions@;
        if rel_path.unicode_len() > 0 && !source.contains_key(rel_path) {
            if options.is_delete {
                actions.push(
                    PlanAction::RemoveEntry {
                        rel_path: rel_path.to_owned(),
                        is_dir: target.value_at(j).kind == SyncEntryKind::Directory,
                    },
                );
            } else {
                actions.push(PlanAction::Skip { rel_path: rel_path.to_owned() });
            }
            proof {
                assert(text::views(actions@) =~= text::views(before).push(actions@.last()@));
            }
        }
        proof {
            assert(text::views(actions@) =~= copied + extra_actions(
                source@,
                target@,
                j + 1,
                options.is_delete,
            ));
        }
        j = j + 1;
    }
    Ok(actions)
}

proof fn lemma_copy_action(
    source: TreeView,
    target: TreeView,
    n: int,
    options: PlanOptions,
    digests: Digests,
    host: HostOs,
    k: int,
) -> (i: int)
    requires
        0 <= n <= source.len(),
        0 <= k < copy_actions(source, target, n, options, digests, host).len(),
    ensures
        0 <= i < n,
        entry_actions(
            source[i].0,
            source[i].1,
            ordered::lookup(target, source[i].0),
            tree_differs(source, target, options, host),
            options,
            digests,
            host,
        ).contains(copy_actions(source, target, n, options, digests, host)[k]),
    decreases n,
{
    let before = copy_actions(source, target, n - 1, options, digests, host);
    let own = entry_actions(
        source[n - 1].0,
        source[n - 1].1,
        ordered::lookup(target, source[n - 1].0),
        tree_differs(source, target, options, host),
        options,
        digests,
        host,
    );
    if k < before.len() {
        assert((before + own)[k] == before[k]);
        lemma_copy_action(source, target, n - 1, options, digests, host, k)
    } else {
        assert((before + own)[k] == own[k - before.len()]);
        n - 1
    }
}

proof fn lemma_extra_action(source: TreeView, target: TreeView, n: int, is_delete: bool, k: int) -> (i:
    int)
    requires
        0 <= n <= target.len(),
        0 <= k < extra_actions(source, target, n, is_delete).len(),
    ensures
        0 <= i < n,
        is_extra(source, target, i),
        extra_actions(source, target, n, is_delete)[k] == extra_action(
            target[i].0,
            target[i].1,
            is_delete,
        ),
    decreases n,
{
    let before = extra_actions(source, target, n - 1, is_delete);
    if k < before.len() {
        lemma_extra_action(source, target, n - 1, is_delete, k)
    } else {
        n - 1
    }
}

/// Nothing is removed unless that was asked for, and then only what the tree
/// to copy lacks; the root is never removed.
pub proof fn only_extras_are_removed(
    source: TreeView,
    target: TreeView,
    options: PlanOptions,
    digests: Digests,
    host: HostOs,
    k: int,
)
    requires
        0 <= k < plan(source, target, options, digests, host).len(),
        plan(source, target, options, digests, host)[k] is RemoveEntry,
    ensures
        options.is_delete,
        ({
            let path = path_of(plan(source, target, options, digests, host)[k]);
            path.len() > 0 && !ordered::has_key(source, path) && ordered::has_key(target, path)
        }),
{
    let copied = copy_actions(source, target, source.len() as int, options, digests, host);
    let extra = extra_actions(source, target, target.len() as int, options.is_delete);
    if k < copied.len() {
        assert((copied + extra)[k] == copied[k]);
        let i = lemma_copy_action(
            source,
            target,
            source.len() as int,
            options,
            digests,
            host,
            k,
        );
    } else {
        assert((copied + extra)[k] == extra[k - copied.len()]);
        let i = lemma_extra_action(
            source,
            target,
            target.len() as int,
            options.is_delete,
            k - copied.len(),
        );
        ordered::lemma_lookup(target, target[i].0);
    }
}

/// Where the tree to write is already like the one to copy, and every file
/// compared by its content is the same, nothing is done at all.
pub proof fn equal_trees_are_left_alone(
    source: TreeView,
    target: TreeView,
    options: PlanOptions,
    digests: Digests,
    host: HostOs,
    k: int,
)
    requires
        !tree_differs(source, target, options, host),
        forall|i: int|
            0 <= i < source.len() && #[trigger] to_compare(source, target, i, options) ==> same_digests(ordered::lookup(digests, source[i].0)),
        0 <= k < plan(source, target, options, digests, host).len(),
    ensures
        plan(source, target, options, digests, host)[k] is Skip,
{
    let copied = copy_actions(source, target, source.len() as int, options, digests, host);
    let extra = extra_actions(source, target, target.len() as int, options.is_delete);
    if k < copied.len() {
        assert((copied + extra)[k] == copied[k]);
        let i = lemma_copy_action(
            source,
            target,
            source.len() as int,
            options,
            digests,
            host,
            k,
        );
        assert(!differs_at(source, target, i, options.direction, host));
        assert(options.is_checksum && source[i].1.kind == SyncEntryKind::File ==> to_compare(
            source,
            target,
            i,
            options,
        ));
    } else {
        assert((copied + extra)[k] == extra[k - copied.len()]);
        let i = lemma_extra_action(
            source,
            target,
            target.len() as int,
            options.is_delete,
            k - copied.len(),
        );
    }
}

proof fn lemma_entry_planned(
    source: TreeView,
    target: TreeView,
    n: int,
    options: PlanOptions,
    digests: Digests,
    host: HostOs,
    i: int,
    action: ActionView,
)
    requires
        0 <= i < n,
        entry_actions(
            source[i].0,
            source[i].1,
            ordered::lookup(target, source[i].0),
            tree_differs(source, target, options, host),
            options,
            digests,
            host,
        ).contains(action),
    ensures
        copy_actions(source, target, n, options, digests, host).contains(action),
    decreases n,
{
    let before = copy_actions(source, target, n - 1, options, digests, host);
    let own = entry_actions(
        source[n - 1].0,
        source[n - 1].1,
        ordered::lookup(target, source[n - 1].0),
        tree_differs(source, target, options, host),
        options,
        digests,
        host,
    );
    if i < n - 1 {
        lemma_entry_planned(source, target, n - 1, options, digests, host, i, action);
        let k = choose|k: int| 0 <= k < before.len() && before[k] == action;
        assert((before + own)[k] == action);
    } else {
        let k = choose|k: int| 0 <= k < own.len() && own[k] == action;
        assert((before + own)[before.len() + k] == action);
    }
}

/// Writing into a directory or removing from it changes its time. So wherever
/// the trees differ in anything, the plan sets the mode and time of every
/// directory of the tree to copy. Where files are compared by their content,
/// two that differ in nothing else are no difference of the trees.
pub proof fn changed_trees_restore_every_directory(
    source: TreeView,
    target: TreeView,
    options: PlanOptions,
    digests: Digests,
    host: HostOs,
    k: int,
    i: int,
)
    requires
        !options.is_checksum,
        0 <= k < plan(source, target, options, digests, host).len(),
        plan(source, target, options, digests, host)[k] !is Skip,
        0 <= i < source.len(),
        source[i].1.kind == SyncEntryKind::Directory,
    ensures
        plan(source, target, options, digests, host).contains(
            dir_metadata(source[i].0, source[i].1),
        ),
{
    if !tree_differs(source, target, options, host) {
        equal_trees_are_left_alone(source, target, options, digests, host, k);
    }
    let own = entry_actions(
        source[i].0,
        source[i].1,
        ordered::lookup(target, source[i].0),
        tree_differs(source, target, options, host),
        options,
        digests,
        host,
    );
    let action = dir_metadata(source[i].0, source[i].1);
    assert(own[own.len() - 1] == action);
    lemma_entry_planned(
        source,
        target,
        source.len() as int,
        options,
        digests,
        host,
        i,
        action,
    );
    let copied = copy_actions(source, target, source.len() as int, options, digests, host);
    let extra = extra_actions(source, target, target.len() as int, options.is_delete);
    let at = choose|at: int| 0 <= at < copied.len() && copied[at] == action;
    assert((copied + extra)[at] == action);
}

} // verus!
