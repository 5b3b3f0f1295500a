//! What a synchronisation comes to, rule by rule: where it goes, what it carries
//! over, what it refuses and what it counts.

use crate::error::Refusal;
use crate::host::HostOs;
use crate::ordered;
use crate::path;
use crate::render;
use crate::sync::endpoint::{self, EndpointView};
use crate::sync::entry::{EntryView, RootStatus, SyncDirection, SyncEntryKind, SyncRules, TreeView};
use crate::sync::exec::{self, FileFacts};
use crate::sync::plan::{self, ActionView};
use crate::sync::scan::{self, FactsView, HostKind, ScanView};
use crate::sync::security;
use crate::sync::session;
use crate::text;
use crate::unicode;
use vstd::prelude::*;

verus! {

/// What becomes of a mode on the other side. A box gets all the rights of a host's
/// file and nothing beside them; a host gets those of a guest's but for the right
/// of others to write. Windows keeps only whether a file can be written.
pub proof fn rights_are_carried_over(host: HostOs, mode: u32, kind: SyncEntryKind)
    ensures
        security::mode_after(host, mode, SyncDirection::HostToGuest, kind) == mode & 0o777,
        host != HostOs::Windows ==> security::mode_after(
            host,
            mode,
            SyncDirection::GuestToHost,
            kind,
        ) == mode & 0o755,
        host == HostOs::Windows ==> {
            let kept = security::mode_after(host, mode, SyncDirection::GuestToHost, kind);
            &&& (kept & 0o200 == 0) == (mode & 0o200 == 0)
            &&& (kept & 0o111 == 0) == (kind != SyncEntryKind::Directory)
            &&& kept & 0o444 == 0o444
            &&& kept <= 0o755
        },
{
    assert(0o555u32 & 0o200 == 0 && 0o555u32 & 0o111 != 0 && 0o555u32 & 0o444 == 0o444)
        by (bit_vector);
    assert(0o755u32 & 0o200 != 0 && 0o755u32 & 0o111 != 0 && 0o755u32 & 0o444 == 0o444)
        by (bit_vector);
    assert(0o444u32 & 0o200 == 0 && 0o444u32 & 0o111 == 0 && 0o444u32 & 0o444 == 0o444)
        by (bit_vector);
    assert(0o644u32 & 0o200 != 0 && 0o644u32 & 0o111 == 0 && 0o644u32 & 0o444 == 0o444)
        by (bit_vector);
}

/// A path behind `box:` or `:` is the box's: it has to be absolute, and a slash at
/// its end is told of and taken off, but for that of the root.
pub proof fn marked_paths_are_the_boxs(path: Seq<char>, host: HostOs)
    requires
        path.len() > 0,
        path.last() != '/',
    ensures
        path[0] == '/' ==> {
            &&& endpoint::endpoint(seq!['b', 'o', 'x', ':'] + path, host) == Ok::<_, Refusal>(
                EndpointView::Guest { path, has_trailing_separator: false },
            )
            &&& endpoint::endpoint(seq![':'] + path, host) == Ok::<_, Refusal>(
                EndpointView::Guest { path, has_trailing_separator: false },
            )
            &&& endpoint::endpoint(seq!['b', 'o', 'x', ':'] + path + seq!['/'], host) == Ok::<
                _,
                Refusal,
            >(EndpointView::Guest { path, has_trailing_separator: true })
            &&& endpoint::endpoint(seq![':'] + path + seq!['/'], host) == Ok::<_, Refusal>(
                EndpointView::Guest { path, has_trailing_separator: true },
            )
        },
        path[0] != '/' ==> endpoint::endpoint(seq!['b', 'o', 'x', ':'] + path, host) is Err
            && endpoint::endpoint(seq![':'] + path, host) is Err,
        endpoint::endpoint(seq!['b', 'o', 'x', ':', '/'], host) == Ok::<_, Refusal>(
            EndpointView::Guest { path: seq!['/'], has_trailing_separator: true },
        ),
{
    reveal_strlit("box:");
    reveal_strlit(":");
    let mark = seq!['b', 'o', 'x', ':'];
    assert("box:"@ =~= mark);
    assert(":"@ =~= seq![':']);
    let a = mark + path;
    let b = seq![':'] + path;
    assert(a.take(4) =~= mark && a.skip(4) =~= path);
    assert(b.take(1) =~= seq![':'] && b.skip(1) =~= path);
    assert(b[0] != 'b');
    assert(b.take(4)[0] == b[0] || b.len() < 4);
    assert(text::without_trailing(path, '/') == path);
    let c = a + seq!['/'];
    let d = b + seq!['/'];
    assert(c.take(4) =~= mark && c.skip(4) =~= path + seq!['/']);
    assert(d.take(1) =~= seq![':'] && d.skip(1) =~= path + seq!['/']);
    assert(d[0] != 'b');
    assert(d.take(4)[0] == d[0] || d.len() < 4);
    let slashed = path + seq!['/'];
    assert(slashed.drop_last() =~= path);
    assert(text::without_trailing(slashed, '/') == path);
    let root = seq!['b', 'o', 'x', ':', '/'];
    assert(root.take(4) =~= mark && root.skip(4) =~= seq!['/']);
}

/// A path without such a mark is the host's, unless it reads like a path in a box
/// of some name; a slash at its end is told of.
pub proof fn unmarked_paths_are_the_hosts(raw: Seq<char>, host: HostOs)
    requires
        raw.len() > 0,
        !raw.contains(':'),
    ensures
        endpoint::endpoint(raw, host) == Ok::<_, Refusal>(
            EndpointView::Host {
                path: path::normalized(raw),
                has_trailing_separator: raw.last() == '/' || host == HostOs::Windows && raw.last()
                    == '\\',
            },
        ),
{
    reveal_strlit("box:");
    reveal_strlit(":");
    if text::begins_with(raw, "box:"@) {
        assert(raw.take(4)[3] == raw[3]);
        assert(raw.contains(':'));
    }
    if text::begins_with(raw, ":"@) {
        assert(raw.take(1)[0] == raw[0]);
        assert(raw.contains(':'));
    }
    text::lemma_first_at(raw, ':', 0);
    let colon = text::first_at(raw, ':', 0);
    if colon < raw.len() {
        assert(raw.contains(':'));
    }
}

/// A synchronisation goes from the first path to the second, and exactly one of
/// them is in the box.
pub proof fn transfers_go_from_the_first_path_to_the_second(
    src: Seq<char>,
    dst: Seq<char>,
    host: HostOs,
)
    ensures
        match endpoint::endpoints(src, dst, host) {
            Ok((from, to, direction)) => {
                &&& endpoint::endpoint(src, host) == Ok::<_, Refusal>(from)
                &&& endpoint::endpoint(dst, host) == Ok::<_, Refusal>(to)
                &&& from is Host == to is Guest
                &&& direction == SyncDirection::HostToGuest <==> from is Host
            },
            Err(_) => {
                ||| endpoint::endpoint(src, host) is Err
                ||| endpoint::endpoint(dst, host) is Err
                ||| endpoint::endpoint(src, host)->Ok_0 is Host == endpoint::endpoint(
                    dst,
                    host,
                )->Ok_0 is Host
            },
        },
{
}

/// Where what is copied ends up. A directory goes into one that is there under its
/// own name, unless it was written with a slash behind it: then its content does.
/// A file goes into a directory that is there, or that was written as one. All
/// else goes exactly where it was said.
pub proof fn copies_land_in_or_at_their_destination(
    name: Seq<char>,
    is_dir: bool,
    src_trailing: bool,
    path: Seq<char>,
    is_existing_dir: bool,
    dst_trailing: bool,
)
    requires
        path.len() > 0,
        path.last() != '/',
    ensures
        ({
            let root = endpoint::placement(
                name,
                is_dir,
                src_trailing,
                path,
                is_existing_dir,
                dst_trailing,
            );
            let inside = path + seq!['/'] + name;
            &&& is_dir && src_trailing ==> root == path
            &&& is_dir && !src_trailing && is_existing_dir ==> root == inside
            &&& is_dir && !is_existing_dir ==> root == path
            &&& !is_dir && is_existing_dir ==> root == inside
            &&& !is_dir && dst_trailing ==> root == inside
            &&& !is_dir && !is_existing_dir && !dst_trailing ==> root == path
        }),
{
    reveal_strlit("/");
    assert("/"@ =~= seq!['/']);
    assert(text::without_trailing(path, '/') == path);
}

/// What can be sent: whatever is there and is no special file; a link only as a
/// link, and with removal only a directory.
pub proof fn what_can_be_sent(path: Seq<char>, kind: Option<HostKind>, trailing: bool, delete: bool)
    ensures
        session::upload_source(path, kind, trailing, delete) is Ok <==> {
            &&& kind is Some
            &&& kind->0 != HostKind::Special
            &&& !(kind->0 == HostKind::Symlink && trailing)
            &&& delete ==> kind->0 == HostKind::Directory
        },
{
}

/// What can be fetched: whatever is there; a link only as a link, and with removal
/// only a directory.
pub proof fn what_can_be_fetched(src: Seq<char>, status: RootStatus, trailing: bool, delete: bool)
    ensures
        session::download_source(src, status, trailing, delete) is Ok <==> {
            &&& status != RootStatus::Missing
            &&& !(status == RootStatus::ExistingSymlink && trailing)
            &&& delete ==> status == RootStatus::ExistingDirectory
        },
{
}

/// Where an upload goes: into the box's directory or to the path itself, as copies
/// land; a file is never written over as if it were a directory.
pub proof fn uploads_land_as_copies_do(
    src: Seq<char>,
    is_dir: bool,
    src_trailing: bool,
    dst: Seq<char>,
    dst_trailing: bool,
    status: RootStatus,
    name: Seq<char>,
)
    requires
        path::file_name(src) == Some(name),
        name.len() > 0,
    ensures
        match session::upload_root(src, is_dir, src_trailing, dst, dst_trailing, status) {
            Ok(root) => root == endpoint::placement(
                name,
                is_dir,
                src_trailing,
                dst,
                status == RootStatus::ExistingDirectory,
                dst_trailing,
            ) && !(dst_trailing && (status == RootStatus::ExistingFile || status
                == RootStatus::ExistingSymlink)),
            Err(_) => dst_trailing && (status == RootStatus::ExistingFile || status
                == RootStatus::ExistingSymlink),
        },
{
}

/// Where a download goes: into the host's directory or to the path itself, as
/// copies land; a file is never written over as if it were a directory, and a link
/// never replaces what was named.
pub proof fn downloads_land_as_copies_do(
    src: Seq<char>,
    status: RootStatus,
    src_trailing: bool,
    dst: Seq<char>,
    dst_trailing: bool,
    is_dir: Option<bool>,
    name: Seq<char>,
)
    requires
        path::file_name(src) == Some(name),
        name.len() > 0,
    ensures
        ({
            let root = endpoint::placement(
                name,
                status == RootStatus::ExistingDirectory,
                src_trailing,
                dst,
                is_dir == Some(true),
                dst_trailing,
            );
            let refused = dst_trailing && is_dir == Some(false) || status
                == RootStatus::ExistingSymlink && path::equivalent(root, dst);
            match session::download_root(src, status, src_trailing, dst, dst_trailing, is_dir) {
                Ok(there) => there == root && !refused,
                Err(_) => refused,
            }
        }),
{
}

/// A box's tree has the root it announced: nothing where it announced nothing, and
/// a directory, a file or a link where it announced one.
pub proof fn roots_are_what_was_announced(entries: TreeView, status: RootStatus)
    ensures
        security::root_kind(entries, status) is Ok <==> match status {
            RootStatus::Missing => entries.len() == 0,
            RootStatus::ExistingDirectory => ordered::lookup(entries, Seq::empty()) is Some
                && ordered::lookup(entries, Seq::empty())->0.kind == SyncEntryKind::Directory,
            RootStatus::ExistingFile => ordered::lookup(entries, Seq::empty()) is Some
                && ordered::lookup(entries, Seq::empty())->0.kind == SyncEntryKind::File,
            RootStatus::ExistingSymlink => ordered::lookup(entries, Seq::empty()) is Some
                && ordered::lookup(entries, Seq::empty())->0.kind == SyncEntryKind::Symlink,
        },
{
}

/// What is taken down of something on a host: what it is, how long a file is, its
/// rights, its time and where a link leads.
pub proof fn entries_describe_what_was_found(
    path: Seq<char>,
    refused: Option<Seq<char>>,
    facts: FactsView,
    rules: SyncRules,
)
    requires
        facts.kind != HostKind::Special,
    ensures
        ({
            let entry = scan::entry_for(path, refused, facts, rules);
            &&& entry.relative_path == path
            &&& entry.path_refusal == refused
            &&& entry.kind == SyncEntryKind::Directory <==> facts.kind == HostKind::Directory
            &&& entry.kind == SyncEntryKind::File <==> facts.kind == HostKind::File
            &&& entry.kind == SyncEntryKind::Symlink <==> facts.kind == HostKind::Symlink
            &&& entry.size == if facts.kind == HostKind::File {
                facts.len
            } else {
                0
            }
            &&& rules.host != HostOs::Windows ==> entry.mode == facts.mode & 0o777
            &&& rules.host == HostOs::Windows ==> entry.mode == match (
                facts.kind == HostKind::Directory,
                facts.readonly,
            ) {
                (true, true) => 0o555u32,
                (true, false) => 0o755u32,
                (false, true) => 0o444u32,
                (false, false) => 0o644u32,
            }
            &&& entry.mtime_secs == facts.mtime_secs
            &&& entry.mtime_nanos == facts.mtime_nanos
            &&& facts.kind == HostKind::Symlink ==> entry.link_target == facts.link_target
            &&& facts.kind != HostKind::Symlink ==> entry.link_target is None
        }),
{
}

/// An entry that is taken in is found under its path, and every other as before.
pub proof fn entries_taken_in_are_found(scan: ScanView, entry: EntryView, other: Seq<char>)
    requires
        ordered::keys_in_order(scan.entries),
    ensures
        ordered::keys_in_order(scan::taken_in(scan, entry).entries),
        ordered::lookup(scan::taken_in(scan, entry).entries, other) == (if other
            == entry.relative_path {
            Some(entry)
        } else {
            ordered::lookup(scan.entries, other)
        }),
        scan::taken_in(scan, entry).pending == scan.pending,
{
    ordered::lemma_lookup_with_entry(scan.entries, entry.relative_path, entry, other);
}

/// What is found on a host is taken in unless it is a special file, a link whose
/// target is no text, too large, badly named, or one too many.
pub proof fn what_a_host_scan_takes_in(
    scan: ScanView,
    full: Seq<char>,
    rel: Seq<char>,
    refused: Option<Seq<char>>,
    facts: FactsView,
    rules: SyncRules,
)
    ensures
        scan::host_verdict(scan, full, rel, refused, facts, rules) is Ok <==> {
            &&& facts.kind != HostKind::Special
            &&& facts.kind == HostKind::Symlink ==> facts.link_target is Some
            &&& refused is None
            &&& facts.len <= rules.max_file_bytes
            &&& scan.entries.len() < rules.max_entries
            &&& scan.metadata_bytes + scan::metadata_of(
                scan::entry_for(rel, None, facts, rules),
            ) <= rules.max_metadata_bytes
        },
{
}

/// What a box reports is taken in unless it is badly named, reported twice or one
/// too many.
pub proof fn what_a_guest_scan_takes_in(scan: ScanView, entry: EntryView, rules: SyncRules)
    ensures
        scan::guest_verdict(scan, entry, rules) is Ok <==> {
            &&& entry.path_refusal is None
            &&& ordered::lookup(scan.entries, entry.relative_path) is None
            &&& scan.entries.len() < rules.max_entries
            &&& scan.metadata_bytes + scan::metadata_of(entry) <= rules.max_metadata_bytes
        },
{
}

/// What counts against the room for metadata: the bytes of the path and of where
/// a link leads, and a fixed part.
pub proof fn metadata_is_counted_in_bytes(entry: EntryView)
    ensures
        scan::metadata_of(entry) == 32 + text::utf8_len(entry.relative_path) + (match entry.link_target {
            Some(target) => text::utf8_len(target),
            None => 0,
        }),
{
}

/// The path of something in a directory is that of the directory and its name.
pub proof fn children_are_named_below_their_directory(directory: Seq<char>, name: Seq<char>)
    requires
        path::one_step(name),
    ensures
        directory.len() == 0 ==> scan::child_path(directory, name) == Some(name),
        directory.len() > 0 && directory.last() != '/' ==> scan::child_path(directory, name)
            == Some(directory + seq!['/'] + name),
{
    reveal_strlit(".");
    reveal_strlit("..");
    assert("."@ =~= seq!['.']);
    assert(".."@ =~= seq!['.', '.']);
    if name[0] == '/' {
        assert(name.contains('/'));
    }
    if directory.len() > 0 {
        assert(directory.push('/') + name =~= directory + seq!['/'] + name);
    }
}

/// What a plan comes to in numbers, action by action: files and links that are
/// written count as copied, a file with its bytes; files that are only adjusted,
/// entries that are removed and entries that are skipped each count for
/// themselves; directories do not count.
pub proof fn plans_are_counted_action_by_action(actions: Seq<ActionView>, action: ActionView)
    requires
        actions.len() < usize::MAX,
        exec::bytes_of(actions.push(action)) <= u64::MAX,
    ensures
        ({
            let before = exec::stats_of(actions);
            let after = exec::stats_of(actions.push(action));
            let one = |counts: bool| if counts {
                1int
            } else {
                0int
            };
            &&& after.copied_count == before.copied_count + one(
                action is TransferFile || action is CreateSymlink,
            )
            &&& after.metadata_updated_count == before.metadata_updated_count + one(
                action is UpdateFileMetadata,
            )
            &&& after.deleted_count == before.deleted_count + one(action is RemoveEntry)
            &&& after.skipped_count == before.skipped_count + one(action is Skip)
            &&& after.transferred_bytes == before.transferred_bytes + (match action {
                ActionView::TransferFile { size, .. } => size as int,
                _ => 0,
            })
        }),
{
    let all = actions.push(action);
    assert(all.drop_last() =~= actions);
    lemma_phase_len(actions, 1);
    lemma_phase_len(actions, 2);
    lemma_phase_len(actions, 3);
    lemma_phase_len(actions, 5);
}

/// A plan that says nothing comes to nothing.
pub proof fn empty_plans_come_to_nothing()
    ensures
        ({
            let none = exec::stats_of(Seq::empty());
            none.copied_count == 0 && none.metadata_updated_count == 0 && none.deleted_count == 0
                && none.skipped_count == 0 && none.transferred_bytes == 0
        }),
{
}

proof fn lemma_phase_len(actions: Seq<ActionView>, wanted: int)
    ensures
        exec::in_phase(actions, wanted).len() <= actions.len(),
    decreases actions.len(),
{
    if actions.len() > 0 {
        lemma_phase_len(actions.drop_last(), wanted);
    }
}

/// A host's file is sent only as it was planned: it is still a file, nothing about
/// it has changed, and it is not too large.
pub proof fn host_files_are_sent_as_planned(
    path: Seq<char>,
    is_file: bool,
    found: FileFacts,
    planned: FileFacts,
    max_file_bytes: u64,
)
    ensures
        exec::host_source_verdict(path, is_file, found, planned, max_file_bytes) is Ok <==> {
            &&& is_file
            &&& found.size == planned.size
            &&& found.mode == planned.mode
            &&& found.mtime_secs == planned.mtime_secs
            &&& found.mtime_nanos == planned.mtime_nanos
            &&& found.size <= max_file_bytes
        },
{
}

/// A guest's file is taken only as it was planned: nothing about it has changed
/// that a plan knows of, and it is not too large.
pub proof fn guest_files_are_taken_as_planned(
    found: FileFacts,
    planned: FileFacts,
    max_file_bytes: u64,
)
    ensures
        exec::guest_source_verdict(found, planned, max_file_bytes) is Ok <==> {
            &&& found.size == planned.size
            &&& found.mode & 0o777 == planned.mode
            &&& found.mtime_secs == planned.mtime_secs
            &&& found.mtime_nanos == planned.mtime_nanos
            &&& found.size <= max_file_bytes
        },
{
}

/// The mode and time of a link are never changed, nor those of a file that has
/// another name elsewhere.
pub proof fn only_files_of_one_name_are_adjusted(
    path: Seq<char>,
    is_symlink: bool,
    is_file: bool,
    link_count: u64,
)
    ensures
        exec::metadata_update_verdict(path, is_symlink, is_file, link_count) is Ok <==> !is_symlink
            && !(is_file && link_count > 1),
{
}

/// Two trees fit one over the other exactly where both are well formed and neither
/// has a directory where the other has something else.
pub proof fn trees_fit_where_directories_meet_directories(
    source: TreeView,
    target: TreeView,
    rules: SyncRules,
)
    ensures
        plan::plan_conflicts(source, target, rules) is Ok <==> {
            &&& security::manifest_verdict(source, rules) is Ok
            &&& security::manifest_verdict(target, rules) is Ok
            &&& forall|i: int|
                0 <= i < source.len() ==> match ordered::lookup(target, (#[trigger] source[i]).0) {
                    Some(dst) => (dst.kind == SyncEntryKind::Directory) == (source[i].1.kind
                        == SyncEntryKind::Directory),
                    None => true,
                }
        },
{
    lemma_conflicts(source, target, source.len() as int);
}

proof fn lemma_conflicts(source: TreeView, target: TreeView, n: int)
    requires
        0 <= n <= source.len(),
    ensures
        plan::kind_conflicts(source, target, n) is Ok <==> forall|i: int|
            0 <= i < n ==> match ordered::lookup(target, (#[trigger] source[i]).0) {
                Some(dst) => (dst.kind == SyncEntryKind::Directory) == (source[i].1.kind
                    == SyncEntryKind::Directory),
                None => true,
            },
    decreases n,
{
    if n > 0 {
        lemma_conflicts(source, target, n - 1);
    }
}

/// Whether an entry of a tree is well formed: it is named as it is filed and not
/// too large, only links lead somewhere, and everything above it is a directory
/// of the tree.
pub open spec fn is_well_formed(
    entries: TreeView,
    path: Seq<char>,
    entry: EntryView,
    rules: SyncRules,
) -> bool {
    &&& entry.path_refusal is None
    &&& entry.relative_path == path
    &&& entry.size <= rules.max_file_bytes
    &&& entry.kind == SyncEntryKind::Symlink <==> entry.link_target is Some
    &&& path.len() > 0 ==> (ordered::lookup(entries, Seq::empty()) matches Some(root) ==> root.kind
        == SyncEntryKind::Directory)
    &&& path.len() > 0 ==> forall|k: int|
        0 <= k < path.len() && #[trigger] path[k] == '/' ==> ordered::lookup(
            entries,
            path.take(k),
        ) is Some && ordered::lookup(entries, path.take(k))->0.kind == SyncEntryKind::Directory
}

/// A tree is accepted, where the host keeps to no naming rules of its own, exactly
/// where all of its entries are well formed.
pub proof fn trees_are_accepted_where_they_are_well_formed(entries: TreeView, rules: SyncRules)
    requires
        rules.host != HostOs::Windows,
    ensures
        security::manifest_verdict(entries, rules) is Ok <==> forall|i: int|
            0 <= i < entries.len() ==> is_well_formed(
                entries,
                (#[trigger] entries[i]).0,
                entries[i].1,
                rules,
            ),
{
    lemma_well_formed(entries, entries.len() as int, rules);
}

proof fn lemma_well_formed(entries: TreeView, n: int, rules: SyncRules)
    requires
        0 <= n <= entries.len(),
        rules.host != HostOs::Windows,
    ensures
        security::verdict_on_first(entries, n, rules) is Ok <==> forall|i: int|
            0 <= i < n ==> is_well_formed(
                entries,
                (#[trigger] entries[i]).0,
                entries[i].1,
                rules,
            ),
    decreases n,
{
    if n > 0 {
        lemma_well_formed(entries, n - 1, rules);
        let (path, entry) = entries[n - 1];
        lemma_directories_above(entries, path);
        assert(security::entry_verdict(entries, path, entry, rules) is Ok <==> is_well_formed(
            entries,
            path,
            entry,
            rules,
        ));
    }
}

proof fn lemma_directories_above(entries: TreeView, path: Seq<char>)
    ensures
        security::has_directories_above(entries, path) <==> forall|k: int|
            0 <= k < path.len() && #[trigger] path[k] == '/' ==> ordered::lookup(
                entries,
                path.take(k),
            ) is Some && ordered::lookup(entries, path.take(k))->0.kind == SyncEntryKind::Directory,
    decreases path.len(),
{
    path::lemma_last_at(path, '/', path.len() as int);
    let slash = path::last_at(path, '/', path.len() as int);
    lemma_nothing_after(path, path.len() as int);
    if slash >= 0 {
        let parent = path.take(slash);
        lemma_directories_above(entries, parent);
        if security::has_directories_above(entries, path) {
            assert forall|k: int| 0 <= k < path.len() && #[trigger] path[k] == '/' implies ordered::lookup(
                entries,
                path.take(k),
            ) is Some && ordered::lookup(entries, path.take(k))->0.kind
                == SyncEntryKind::Directory by {
                if k < slash {
                    assert(parent[k] == '/');
                    assert(parent.take(k) =~= path.take(k));
                }
            }
        } else if forall|k: int|
            0 <= k < path.len() && #[trigger] path[k] == '/' ==> ordered::lookup(
                entries,
                path.take(k),
            ) is Some && ordered::lookup(entries, path.take(k))->0.kind
                == SyncEntryKind::Directory {
            assert(path[slash] == '/');
            assert forall|k: int| 0 <= k < parent.len() && #[trigger] parent[k] == '/' implies ordered::lookup(
                entries,
                parent.take(k),
            ) is Some && ordered::lookup(entries, parent.take(k))->0.kind
                == SyncEntryKind::Directory by {
                assert(path[k] == '/');
                assert(parent.take(k) =~= path.take(k));
            }
        }
    }
}

proof fn lemma_nothing_after(path: Seq<char>, n: int)
    requires
        0 <= n <= path.len(),
    ensures
        forall|k: int| path::last_at(path, '/', n) < k < n ==> #[trigger] path[k] != '/',
        path::last_at(path, '/', n) >= 0 ==> path[path::last_at(path, '/', n)] == '/',
        path::last_at(path, '/', n) < n,
    decreases n,
{
    if n > 0 && path[n - 1] != '/' {
        lemma_nothing_after(path, n - 1);
    }
}

/// A file name is one on Windows exactly where it names no device, ends in no dot
/// and no space, and holds no character that means something there.
pub proof fn names_windows_can_hold(name: Seq<char>)
    ensures
        security::windows_name(name) is Ok <==> {
            &&& !security::reserved_on_windows(name)
            &&& name.len() > 0 ==> name.last() != '.' && name.last() != ' '
            &&& forall|i: int|
                0 <= i < name.len() ==> !unicode::control(#[trigger] name[i]) && !seq![
                    '<',
                    '>',
                    ':',
                    '"',
                    '/',
                    '\\',
                    '|',
                    '?',
                    '*',
                ].contains(name[i])
        },
{
    let list = seq!['<', '>', ':', '"', '/', '\\', '|', '?', '*'];
    assert(list[0] == '<' && list[1] == '>' && list[2] == ':' && list[3] == '"' && list[4] == '/'
        && list[5] == '\\' && list[6] == '|' && list[7] == '?' && list[8] == '*');
    assert forall|i: int| 0 <= i < name.len() implies security::kept_out_on_windows(
        #[trigger] name[i],
    ) == (unicode::control(name[i]) || list.contains(name[i])) by {}
    if security::representable_on_windows(name) {
        assert forall|i: int| 0 <= i < name.len() implies !unicode::control(#[trigger] name[i])
            && !list.contains(name[i]) by {
            assert(!security::kept_out_on_windows(name[i]));
        }
    }
}

/// Where case and composition count, any two names are kept apart; where they do
/// not, names that read alike there are refused.
pub proof fn names_that_read_alike_are_refused(host: HostOs, source: TreeView, target: TreeView)
    ensures
        host == HostOs::Linux ==> security::case_aliases(host, source, target) is Ok,
        forall|i: int, j: int|
            0 <= i < source.len() && 0 <= j < target.len() && (#[trigger] source[i]).0 != (
            #[trigger] target[j]).0 && security::lookup_key(host, source[i].0)
                == security::lookup_key(host, target[j].0) ==> security::case_aliases(
                host,
                source,
                target,
            ) is Err,
{
    let all = security::all_paths(source, target);
    assert forall|i: int, j: int|
        0 <= i < source.len() && 0 <= j < target.len() && (#[trigger] source[i]).0 != (
        #[trigger] target[j]).0 && security::lookup_key(host, source[i].0)
            == security::lookup_key(host, target[j].0) implies security::case_aliases(
        host,
        source,
        target,
    ) is Err by {
        assert(all[i] == source[i].0);
        assert(all[source.len() + j] == target[j].0);
    }
}

/// What a box says is shown as it can be printed, as far as is allowed; where
/// it says more, that is marked.
pub proof fn messages_are_shown_as_far_as_allowed(said: Seq<char>, more: Seq<char>, limit: nat)
    ensures
        said.len() <= limit ==> security::sanitized(said, limit as int) == render::printable(said),
        said.len() == limit && more.len() > 0 ==> security::sanitized(said + more, limit as int)
            == render::printable(said) + seq!['\u{2026}'],
{
    if said.len() == limit && more.len() > 0 {
        assert((said + more).take(limit as int) =~= said);
        assert(render::printable(said).push('\u{2026}') =~= render::printable(said) + seq![
            '\u{2026}',
        ]);
    }
}

/// A root that is a single entry is taken in under the empty path, as what it
/// is; what is neither a file, a directory nor a link is refused, and so are a
/// link that cannot be read and a file that is too large.
pub proof fn single_roots_are_taken_in(path: Seq<char>, facts: FactsView, rules: SyncRules)
    ensures
        ({
            let root = scan::root_entry(path, facts, rules);
            &&& root is Ok <==> {
                &&& facts.kind != HostKind::Special
                &&& facts.kind == HostKind::Symlink ==> facts.link_target is Some
                &&& facts.len <= rules.max_file_bytes
            }
            &&& root is Ok ==> {
                &&& root->Ok_0.len() == 1
                &&& root->Ok_0[0].0.len() == 0
                &&& root->Ok_0[0].1 == scan::entry_for(Seq::empty(), None, facts, rules)
            }
        }),
{
}

proof fn lemma_windows_names(names: Seq<Seq<char>>)
    ensures
        security::windows_names(names) is Ok <==> forall|i: int|
            0 <= i < names.len() && (#[trigger] names[i]).len() > 0 ==> security::windows_name(
                names[i],
            ) is Ok,
    decreases names.len(),
{
    if names.len() > 0 {
        let init = names.drop_last();
        lemma_windows_names(init);
        if security::windows_names(names) is Ok {
            assert forall|i: int| 0 <= i < names.len() && (#[trigger] names[i]).len() > 0 implies
            security::windows_name(names[i]) is Ok by {
                if i < init.len() {
                    assert(init[i] == names[i]);
                }
            }
        } else if security::windows_names(init) is Err {
            let i = choose|i: int|
                0 <= i < init.len() && (#[trigger] init[i]).len() > 0 && security::windows_name(
                    init[i],
                ) is Err;
            assert(names[i] == init[i]);
        } else {
            assert(names[names.len() - 1].len() > 0);
        }
    }
}

/// A path can be held on Windows where every name in it can.
pub proof fn paths_windows_can_hold(names: Seq<Seq<char>>)
    ensures
        security::windows_names(names) is Ok <==> forall|i: int|
            0 <= i < names.len() && (#[trigger] names[i]).len() > 0 ==> security::windows_name(
                names[i],
            ) is Ok,
{
    lemma_windows_names(names);
}

/// What is on the host is sent with the rights that it has there: of a mode all
/// that owner, group and others may do, and on Windows whether it may be
/// written to.
pub proof fn rights_are_read_off_the_host(host: HostOs, mode: u32, is_dir: bool, readonly: bool)
    ensures
        host != HostOs::Windows ==> security::mode_on_host(host, mode, is_dir, readonly) == mode
            % 512,
        host == HostOs::Windows ==> {
            let sent = security::mode_on_host(host, mode, is_dir, readonly);
            &&& is_dir && readonly ==> sent == 0o555
            &&& is_dir && !readonly ==> sent == 0o755
            &&& !is_dir && readonly ==> sent == 0o444
            &&& !is_dir && !readonly ==> sent == 0o644
        },
{
    assert(mode & 0o777 == mode % 512) by (bit_vector);
}

/// A directory that is named by no name of its own, such as `.` or `/`, is
/// copied as what is in it: it lands at the destination and not inside.
pub proof fn nameless_directories_land_at_their_destination(
    src: Seq<char>,
    src_trailing: bool,
    dst: Seq<char>,
    dst_trailing: bool,
    status: RootStatus,
    is_dir: Option<bool>,
)
    requires
        path::file_name(src) is None,
    ensures
        session::upload_root(src, true, src_trailing, dst, dst_trailing, status) matches Ok(root)
            ==> root == dst,
        session::download_root(
            src,
            RootStatus::ExistingDirectory,
            src_trailing,
            dst,
            dst_trailing,
            is_dir,
        ) matches Ok(root) ==> root == dst,
{
}

/// A path that begins with a drive is the host's.
pub proof fn drives_are_on_the_host(letter: char, rest: Seq<char>, host: HostOs)
    requires
        'a' <= letter <= 'z' || 'A' <= letter <= 'Z',
    ensures
        endpoint::endpoint(seq![letter, ':'] + rest, host) matches Ok(EndpointView::Host { path, .. })
            && path == path::normalized(seq![letter, ':'] + rest),
{
    reveal_strlit("box:");
    reveal_strlit(":");
    let raw = seq![letter, ':'] + rest;
    assert(raw[0] == letter);
    assert(raw[1] == ':');
    if text::begins_with(raw, "box:"@) {
        assert(raw.take(4)[1] == raw[1]);
    }
    if text::begins_with(raw, ":"@) {
        assert(raw.take(1)[0] == raw[0]);
    }
}

/// The box is not named in a path: what is written as a name, a colon and a
/// path from the root is refused, unless the name stands for the box of the
/// command or for a drive.
pub proof fn boxes_are_not_named_in_paths(name: Seq<char>, rest: Seq<char>, host: HostOs)
    requires
        name.len() > 1,
        name != seq!['b', 'o', 'x'],
        !name.contains(':'),
        !name.contains('/'),
        !name.contains('\\'),
    ensures
        endpoint::endpoint(name + seq![':', '/'] + rest, host) is Err,
{
    reveal_strlit("box:");
    reveal_strlit(":");
    let raw = name + seq![':', '/'] + rest;
    text::lemma_first_at(raw, ':', 0);
    let colon = text::first_at(raw, ':', 0);
    assert(raw[name.len() as int] == ':');
    assert(raw[name.len() as int + 1] == '/');
    assert(colon == name.len()) by {
        if colon < name.len() {
            assert(raw[colon] == name[colon]);
            assert(name.contains(':'));
        }
    }
    assert(raw.take(colon) =~= name);
    assert(raw[0] == name[0] && raw[1] == name[1]);
    if text::begins_with(raw, ":"@) {
        assert(raw.take(1)[0] == raw[0]);
        assert(name.contains(':'));
    }
    if text::begins_with(raw, "box:"@) {
        assert(raw.take(4) =~= "box:"@);
        assert(raw.take(4)[0] == raw[0] && raw.take(4)[1] == raw[1] && raw.take(4)[2] == raw[2]
            && raw.take(4)[3] == raw[3]);
        if name.len() > 3 {
            assert(name[3] == ':');
            assert(name.contains(':'));
        } else if name.len() == 3 {
            assert(name =~= seq!['b', 'o', 'x']);
        }
    }
    if raw[1] == ':' {
        assert(name.contains(':'));
    }
}

} // verus!
