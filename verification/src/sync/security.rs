//! What is taken from a box only after a check: messages, modes, names and
//! the shape of a tree.

use crate::error::{self, Error, Refusal, refuse};
use crate::host::HostOs;
use crate::name::{self, read_device_part};
use crate::ordered;
use crate::path;
use crate::render::{self, escape_printable};
use crate::sync::entry::{
    EntryView, RootStatus, SyncDirection, SyncEntryKind, SyncRules, Tree, TreeView,
};
use crate::text::{self, chars_of, same_text, split_text, text_between};
use crate::unicode::{self, is_control, lower_char, nfd, to_lowercase};
use vstd::prelude::*;

verus! {

/// A message from the box as the host repeats it: the first characters, made
/// printable, and an ellipsis where there were more.
pub open spec fn sanitized(message: Seq<char>, limit: int) -> Seq<char> {
    if message.len() <= limit {
        render::printable(message)
    } else {
        render::printable(message.take(limit)).push('…')
    }
}

pub fn sanitize_guest_error_message(err: &str, limit: usize) -> (shown: String)
    ensures
        shown@ == sanitized(err@, limit as int),
        render::harmless(shown@),
{
    let chars = chars_of(err);
    if chars.len() <= limit {
        return escape_printable(err);
    }
    let head = text_between(&chars, 0, limit);
    proof {
        assert(head@ =~= err@.take(limit as int));
    }
    let mut shown = escape_printable(head.as_str());
    let ghost before = shown@;
    shown.push('…');
    proof {
        assert forall|i: int| 0 <= i < shown@.len() implies !unicode::control(#[trigger] shown@[i]) by {
            if i < before.len() {
                assert(shown@[i] == before[i]);
            }
        }
    }
    shown
}

/// The mode that stands for what Windows knows of a file.
pub open spec fn windows_mode(is_dir: bool, readonly: bool) -> u32 {
    match (is_dir, readonly) {
        (true, true) => 0o555,
        (true, false) => 0o755,
        (false, true) => 0o444,
        (false, false) => 0o644,
    }
}

/// The mode that something on the host is sent to a box with.
pub open spec fn mode_on_host(host: HostOs, mode: u32, is_dir: bool, readonly: bool) -> u32 {
    if host == HostOs::Windows {
        windows_mode(is_dir, readonly)
    } else {
        mode & 0o777
    }
}

/// The mode a host file is sent with.
pub fn to_guest_mode(host: HostOs, mode: u32, is_dir: bool, readonly: bool) -> (guest_mode: u32)
    ensures
        guest_mode == mode_on_host(host, mode, is_dir, readonly),
{
    if host == HostOs::Windows {
        match (is_dir, readonly) {
            (true, true) => 0o555,
            (true, false) => 0o755,
            (false, true) => 0o444,
            (false, false) => 0o644,
        }
    } else {
        mode & 0o777
    }
}

/// The part of a guest's mode a host file may get.
pub fn to_safe_mode(guest_mode: u32) -> (mode: u32)
    ensures
        mode == guest_mode & 0o755,
{
    guest_mode & 0o755
}

/// A guest cannot hand out set-user-id, set-group-id, the sticky bit or
/// write access to others on the host, and what is safe stays as it is.
pub proof fn safe_modes_grant_nothing_extra(guest_mode: u32)
    ensures
        (guest_mode & 0o755) & 0o7000 == 0,
        (guest_mode & 0o755) & 0o022 == 0,
        guest_mode & 0o755 <= 0o755,
        (guest_mode & 0o755) & 0o755 == guest_mode & 0o755,
{
    assert((guest_mode & 0o755) & 0o7000 == 0) by (bit_vector);
    assert((guest_mode & 0o755) & 0o022 == 0) by (bit_vector);
    assert(guest_mode & 0o755 <= 0o755) by (bit_vector);
    assert((guest_mode & 0o755) & 0o755 == guest_mode & 0o755) by (bit_vector);
}

/// The mode an entry has once it has been written on the other side.
pub open spec fn mode_after(
    host: HostOs,
    mode: u32,
    direction: SyncDirection,
    kind: SyncEntryKind,
) -> u32 {
    match direction {
        SyncDirection::HostToGuest => mode & 0o777,
        SyncDirection::GuestToHost => if host == HostOs::Windows {
            windows_mode(kind == SyncEntryKind::Directory, mode & 0o200 == 0)
        } else {
            mode & 0o755
        },
    }
}

pub fn effective_mode(host: HostOs, mode: u32, direction: SyncDirection, kind: SyncEntryKind) -> (
    effective: u32)
    ensures
        effective == mode_after(host, mode, direction, kind),
{
    if host == HostOs::Windows && direction == SyncDirection::GuestToHost {
        return match (kind == SyncEntryKind::Directory, mode & 0o200 == 0) {
            (true, true) => 0o555,
            (true, false) => 0o755,
            (false, true) => 0o444,
            (false, false) => 0o644,
        };
    }
    match direction {
        SyncDirection::HostToGuest => mode & 0o777,
        SyncDirection::GuestToHost => to_safe_mode(mode),
    }
}

/// Whether Windows reads a name's first part as a device.
pub open spec fn reserved_on_windows(name: Seq<char>) -> bool {
    let part = name::device_part(name);
    ||| part == "CON"@
    ||| part == "PRN"@
    ||| part == "AUX"@
    ||| part == "NUL"@
    ||| part == "CONIN$"@
    ||| part == "CONOUT$"@
    ||| part.len() == 4 && (part.take(3) == "COM"@ || part.take(3) == "LPT"@) && (('1' <= part[3]
        <= '9') || part[3] == '¹' || part[3] == '²' || part[3] == '³')
}

/// Whether Windows keeps a character out of file names.
pub open spec fn kept_out_on_windows(c: char) -> bool {
    unicode::control(c) || c == '<' || c == '>' || c == ':' || c == '"' || c == '/' || c == '\\' || c == '|'
        || c == '?' || c == '*'
}

/// Whether a name is a file name on Windows.
pub open spec fn representable_on_windows(name: Seq<char>) -> bool {
    &&& !reserved_on_windows(name)
    &&& name.len() > 0 ==> name.last() != '.' && name.last() != ' '
    &&& forall|i: int| 0 <= i < name.len() ==> !kept_out_on_windows(#[trigger] name[i])
}

pub open spec fn windows_name(name: Seq<char>) -> Result<(), Refusal> {
    if representable_on_windows(name) {
        Ok(())
    } else {
        Err(error::refusal("guest filename is not representable on Windows"@))
    }
}

fn is_reserved_on_windows(name: &str) -> (yes: bool)
    ensures
        yes == reserved_on_windows(name@),
{
    let part = read_device_part(name);
    let part = part.as_str();
    if same_text(part, "CON") || same_text(part, "PRN") || same_text(part, "AUX") || same_text(
        part,
        "NUL",
    ) || same_text(part, "CONIN$") || same_text(part, "CONOUT$") {
        return true;
    }
    if part.unicode_len() != 4 {
        return false;
    }
    let head = part.substring_char(0, 3);
    proof {
        assert(head@ =~= part@.take(3));
    }
    let last: char = part.get_char(3);
    (same_text(head, "COM") || same_text(head, "LPT")) && (('1' <= last && last <= '9') || last
        == '¹' || last == '²' || last == '³')
}

pub fn validate_windows_name(name: &str) -> (verdict: Result<(), Error>)
    ensures
        error::outcome(verdict) == windows_name(name@),
{
    let chars = chars_of(name);
    let n: usize = chars.len();
    let mut fits: bool = !is_reserved_on_windows(name);
    if n > 0 && (chars[n - 1] == '.' || chars[n - 1] == ' ') {
        fits = false;
    }
    let mut i: usize = 0;
    while i < n && fits
        invariant
            i <= n == chars@.len(),
            chars@ == name@,
            fits ==> !reserved_on_windows(name@) && (n > 0 ==> name@.last() != '.' && name@.last()
                != ' ') && (forall|j: int| 0 <= j < i ==> !kept_out_on_windows(#[trigger] name@[j])),
            !fits ==> !representable_on_windows(name@),
        decreases n - i,
    {
        let c: char = chars[i];
        if is_control(c) || c == '<' || c == '>' || c == ':' || c == '"' || c == '/' || c == '\\'
            || c == '|' || c == '?' || c == '*' {
            proof {
                assert(kept_out_on_windows(name@[i as int]));
            }
            fits = false;
        }
        i = i + 1;
    }
    if fits {
        Ok(())
    } else {
        Err(refuse("guest filename is not representable on Windows"))
    }
}

/// The names of a path that are not empty, each held to the rules of Windows.
pub open spec fn windows_names(names: Seq<Seq<char>>) -> Result<(), Refusal>
    decreases names.len(),
{
    if names.len() == 0 {
        Ok(())
    } else {
        match windows_names(names.drop_last()) {
            Err(refused) => Err(refused),
            Ok(_) => if names.last().len() == 0 {
                Ok(())
            } else {
                windows_name(names.last())
            },
        }
    }
}

proof fn lemma_windows_names_prefix(names: Seq<Seq<char>>, n: int)
    requires
        0 <= n <= names.len(),
        windows_names(names.take(n)) is Err,
    ensures
        windows_names(names) == windows_names(names.take(n)),
    decreases names.len() - n,
{
    if n < names.len() {
        assert(names.take(n + 1).drop_last() =~= names.take(n));
        lemma_windows_names_prefix(names, n + 1);
    } else {
        assert(names.take(n) =~= names);
    }
}

fn validate_windows_path(path: &str) -> (verdict: Result<(), Error>)
    ensures
        error::outcome(verdict) == windows_names(text::pieces(path@, '/')),
{
    let names = split_text(path, '/');
    let ghost all = text::texts(names@);
    let mut i: usize = 0;
    while i < names.len()
        invariant
            i <= names@.len(),
            all == text::texts(names@),
            all == text::pieces(path@, '/'),
            windows_names(all.take(i as int)) is Ok,
        decreases names.len() - i,
    {
        proof {
            assert(all.take(i + 1).drop_last() =~= all.take(i as int));
            assert(all.take(i + 1).last() == names@[i as int]@);
        }
        let name = names[i].as_str();
        if name.unicode_len() > 0 {
            let verdict = validate_windows_name(name);
            if verdict.is_err() {
                proof {
                    lemma_windows_names_prefix(all, i + 1);
                }
                return verdict;
            }
        }
        i = i + 1;
    }
    proof {
        assert(all.take(i as int) =~= all);
    }
    Ok(())
}

/// What stands before the last slash of a path, where there is one.
pub open spec fn parent_of(path: Seq<char>) -> Option<Seq<char>> {
    let slash = path::last_at(path, '/', path.len() as int);
    if slash < 0 {
        None
    } else {
        Some(path.take(slash))
    }
}

/// Whether every directory above a path is an entry and a directory.
pub open spec fn has_directories_above(entries: TreeView, path: Seq<char>) -> bool
    decreases path.len(),
    via has_directories_above_decreases
{
    match parent_of(path) {
        None => true,
        Some(parent) => {
            &&& ordered::lookup(entries, parent) matches Some(entry) && entry.kind == SyncEntryKind::Directory
            &&& has_directories_above(entries, parent)
        },
    }
}

#[via_fn]
proof fn has_directories_above_decreases(entries: TreeView, path: Seq<char>) {
    crate::path::lemma_last_at(path, '/', path.len() as int);
}

/// What is held against one entry of a tree, if anything.
pub open spec fn entry_verdict(
    entries: TreeView,
    path: Seq<char>,
    entry: EntryView,
    rules: SyncRules,
) -> Result<(), Refusal> {
    if let Some(refused) = entry.path_refusal {
        Err(error::refusal(refused))
    } else if entry.relative_path != path {
        Err(error::refusal("manifest path mismatch"@))
    } else if entry.size > rules.max_file_bytes {
        Err(error::refusal("file exceeds sync size limit"@))
    } else if (entry.kind == SyncEntryKind::Symlink) != (entry.link_target is Some) {
        Err(error::refusal("manifest link target does not match its entry kind"@))
    } else if rules.host == HostOs::Windows && windows_names(text::pieces(path, '/')) is Err {
        windows_names(text::pieces(path, '/'))
    } else if path.len() == 0 {
        Ok(())
    } else if ordered::lookup(entries, Seq::empty()) matches Some(root) && root.kind
        != SyncEntryKind::Directory {
        Err(error::refusal("manifest root has children but is not a directory"@))
    } else if !has_directories_above(entries, path) {
        Err(error::refusal("manifest entry has a missing or non-directory ancestor"@))
    } else {
        Ok(())
    }
}

/// What is held against the first `n` entries of a tree.
pub open spec fn verdict_on_first(entries: TreeView, n: int, rules: SyncRules) -> Result<(), Refusal>
    decreases n,
{
    if n <= 0 {
        Ok(())
    } else {
        match verdict_on_first(entries, n - 1, rules) {
            Err(refused) => Err(refused),
            Ok(_) => entry_verdict(entries, entries[n - 1].0, entries[n - 1].1, rules),
        }
    }
}

/// What is held against a tree: the first fault of its first faulty entry.
pub open spec fn manifest_verdict(entries: TreeView, rules: SyncRules) -> Result<(), Refusal> {
    verdict_on_first(entries, entries.len() as int, rules)
}

proof fn lemma_first_fault(entries: TreeView, n: int, m: int, rules: SyncRules)
    requires
        0 <= n <= m,
        verdict_on_first(entries, n, rules) is Err,
    ensures
        verdict_on_first(entries, m, rules) == verdict_on_first(entries, n, rules),
    decreases m - n,
{
    if n < m {
        lemma_first_fault(entries, n, m - 1, rules);
    }
}

fn check_directories_above(entries: &Tree, path: &str) -> (yes: bool)
    ensures
        yes == has_directories_above(entries@, path@),
    decreases path@.len(),
{
    let chars = chars_of(path);
    let mut slash: usize = chars.len();
    while slash > 0 && chars[slash - 1] != '/'
        invariant
            slash <= chars@.len(),
            chars@ == path@,
            path::last_at(path@, '/', path@.len() as int) == path::last_at(path@, '/', slash as int),
        decreases slash,
    {
        slash = slash - 1;
    }
    if slash == 0 {
        return true;
    }
    let parent = text_between(&chars, 0, slash - 1);
    proof {
        assert(parent@ =~= path@.take(slash - 1));
    }
    match entries.get(parent.as_str()) {
        Some(entry) => if entry.kind == SyncEntryKind::Directory {
            check_directories_above(entries, parent.as_str())
        } else {
            false
        },
        None => false,
    }
}

fn validate_entry(entries: &Tree, i: usize, rules: &SyncRules) -> (verdict: Result<(), Error>)
    requires
        i < entries@.len(),
    ensures
        error::outcome(verdict) == entry_verdict(
            entries@,
            entries@[i as int].0,
            entries@[i as int].1,
            *rules,
        ),
{
    let path = entries.key_at(i);
    let entry = entries.value_at(i);
    if let Some(refused) = &entry.path_refusal {
        return Err(refuse(refused.as_str()));
    }
    if !same_text(entry.relative_path.as_str(), path) {
        return Err(refuse("manifest path mismatch"));
    }
    if entry.size > rules.max_file_bytes {
        return Err(refuse("file exceeds sync size limit"));
    }
    if (entry.kind == SyncEntryKind::Symlink) != entry.link_target.is_some() {
        return Err(refuse("manifest link target does not match its entry kind"));
    }
    if rules.host == HostOs::Windows {
        let verdict = validate_windows_path(path);
        if verdict.is_err() {
            return verdict;
        }
    }
    if path.unicode_len() == 0 {
        return Ok(());
    }
    proof {
        reveal_strlit("");
        assert(""@ =~= Seq::empty());
    }
    if let Some(root) = entries.get("") {
        if root.kind != SyncEntryKind::Directory {
            return Err(refuse("manifest root has children but is not a directory"));
        }
    }
    if !check_directories_above(entries, path) {
        return Err(refuse("manifest entry has a missing or non-directory ancestor"));
    }
    Ok(())
}

pub fn validate_manifest(entries: &Tree, rules: &SyncRules) -> (verdict: Result<(), Error>)
    ensures
        error::outcome(verdict) == manifest_verdict(entries@, *rules),
{
    let n: usize = entries.len();
    let mut i: usize = 0;
    while i < n
        invariant
            i <= n == entries@.len(),
            verdict_on_first(entries@, i as int, *rules) is Ok,
        decreases n - i,
    {
        let verdict = validate_entry(entries, i, rules);
        if verdict.is_err() {
            proof {
                lemma_first_fault(entries@, i + 1, n as int, *rules);
            }
            return verdict;
        }
        i = i + 1;
    }
    Ok(())
}

/// The lowercase of a text, character by character.
pub open spec fn lowercased_each(text: Seq<char>) -> Seq<char>
    decreases text.len(),
{
    if text.len() == 0 {
        Seq::empty()
    } else {
        lowercased_each(text.drop_last()) + unicode::lowercased_char(text.last())
    }
}

/// What the default macOS volume looks a path up by: decomposed, lowercased
/// and decomposed again.
pub open spec fn macos_key(path: Seq<char>) -> Seq<char> {
    unicode::decomposed(lowercased_each(unicode::decomposed(path)))
}

pub fn macos_manifest_lookup_key(path: &str) -> (key: String)
    ensures
        key@ == macos_key(path@),
{
    let canonical = nfd(path);
    let chars = chars_of(canonical.as_str());
    let mut lower: String = String::new();
    let mut i: usize = 0;
    proof {
        assert(canonical@.take(0) =~= Seq::empty());
    }
    while i < chars.len()
        invariant
            i <= chars@.len(),
            chars@ == canonical@,
            lower@ == lowercased_each(canonical@.take(i as int)),
        decreases chars.len() - i,
    {
        lower.append(lower_char(chars[i]).as_str());
        proof {
            assert(canonical@.take(i + 1).drop_last() =~= canonical@.take(i as int));
        }
        i = i + 1;
    }
    proof {
        assert(canonical@.take(i as int) =~= canonical@);
    }
    nfd(lower.as_str())
}

/// What two paths share where the host takes them for one.
pub open spec fn lookup_key(host: HostOs, path: Seq<char>) -> Seq<char> {
    match host {
        HostOs::Linux => path,
        HostOs::MacOs => macos_key(path),
        HostOs::Windows => unicode::lowercased(path),
    }
}

pub fn manifest_lookup_key(host: HostOs, path: &str) -> (key: String)
    ensures
        key@ == lookup_key(host, path@),
{
    match host {
        HostOs::Linux => path.to_owned(),
        HostOs::MacOs => macos_manifest_lookup_key(path),
        HostOs::Windows => to_lowercase(path),
    }
}

/// The paths of a tree, in order.
pub open spec fn paths_of(entries: TreeView) -> Seq<Seq<char>> {
    Seq::new(entries.len(), |i: int| entries[i].0)
}

/// The paths of two trees, those of the first before those of the second.
pub open spec fn all_paths(source: TreeView, target: TreeView) -> Seq<Seq<char>> {
    paths_of(source) + paths_of(target)
}

/// Whether no two different paths are one to the host.
pub open spec fn free_of_aliases(host: HostOs, paths: Seq<Seq<char>>) -> bool {
    forall|i: int, j: int|
        0 <= i < j < paths.len() && lookup_key(host, #[trigger] paths[i]) == lookup_key(
            host,
            #[trigger] paths[j],
        ) ==> paths[i] == paths[j]
}

pub open spec fn case_aliases(host: HostOs, source: TreeView, target: TreeView) -> Result<
    (),
    Refusal,
> {
    if free_of_aliases(host, all_paths(source, target)) {
        Ok(())
    } else {
        Err(
            error::refusal(
                "sync paths differ only in case or Unicode normalization; rename one before syncing"@,
            ),
        )
    }
}

fn has_alias(keys: &Vec<String>, spelled: &Vec<String>, key: &str, path: &str) -> (found: bool)
    requires
        keys@.len() == spelled@.len(),
    ensures
        found == exists|j: int|
            0 <= j < keys@.len() && (#[trigger] keys@[j])@ == key@ && spelled@[j]@ != path@,
{
    let mut j: usize = 0;
    while j < keys.len()
        invariant
            j <= keys@.len() == spelled@.len(),
            forall|k: int|
                0 <= k < j ==> !((#[trigger] keys@[k])@ == key@ && spelled@[k]@ != path@),
        decreases keys.len() - j,
    {
        if same_text(keys[j].as_str(), key) && !same_text(spelled[j].as_str(), path) {
            return true;
        }
        j = j + 1;
    }
    false
}

/// The paths of a tree, put behind those already listed.
fn append_paths(list: &mut Vec<String>, entries: &Tree)
    ensures
        text::texts(final(list)@) == text::texts(old(list)@) + paths_of(entries@),
{
    let n: usize = entries.len();
    let mut i: usize = 0;
    let ghost start = text::texts(list@);
    proof {
        assert(text::texts(list@) =~= start + paths_of(entries@).take(0));
    }
    while i < n
        invariant
            i <= n == entries@.len(),
            text::texts(list@) == start + paths_of(entries@).take(i as int),
        decreases n - i,
    {
        let ghost before = list@;
        list.push(entries.key_at(i).to_owned());
        proof {
            text::lemma_texts_push(before, list@.last());
            assert(text::texts(list@) =~= start + paths_of(entries@).take(i + 1));
        }
        i = i + 1;
    }
    proof {
        assert(paths_of(entries@).take(n as int) =~= paths_of(entries@));
    }
}

fn lookup_keys(host: HostOs, list: &Vec<String>) -> (keys: Vec<String>)
    ensures
        keys@.len() == list@.len(),
        forall|i: int| 0 <= i < keys@.len() ==> (#[trigger] keys@[i])@ == lookup_key(host, list@[i]@),
{
    let mut keys: Vec<String> = Vec::new();
    let mut i: usize = 0;
    while i < list.len()
        invariant
            i <= list@.len(),
            keys@.len() == i,
            forall|j: int| 0 <= j < i ==> (#[trigger] keys@[j])@ == lookup_key(host, list@[j]@),
        decreases list.len() - i,
    {
        keys.push(manifest_lookup_key(host, list[i].as_str()));
        i = i + 1;
    }
    keys
}

pub fn validate_case_aliases(host: HostOs, source: &Tree, target: &Tree) -> (verdict: Result<
    (),
    Error,
>)
    ensures
        error::outcome(verdict) == case_aliases(host, source@, target@),
{
    let mut spelled: Vec<String> = Vec::new();
    append_paths(&mut spelled, source);
    append_paths(&mut spelled, target);
    let ghost paths = all_paths(source@, target@);
    proof {
        assert(text::texts(spelled@) =~= paths);
        assert forall|i: int| 0 <= i < paths.len() implies paths[i] == #[trigger] spelled@[i]@ by {
            assert(text::texts(spelled@)[i] == spelled@[i]@);
        }
    }
    let keys = lookup_keys(host, &spelled);
    let mut i: usize = 0;
    while i < keys.len()
        invariant
            i <= keys@.len(),
            keys@.len() == spelled@.len() == paths.len(),
            forall|j: int| 0 <= j < paths.len() ==> paths[j] == #[trigger] spelled@[j]@,
            forall|j: int|
                0 <= j < keys@.len() ==> (#[trigger] keys@[j])@ == lookup_key(host, spelled@[j]@),
            forall|a: int, b: int|
                0 <= a < paths.len() && 0 <= b < i && lookup_key(host, #[trigger] paths[a])
                    == lookup_key(host, #[trigger] paths[b]) ==> paths[a] == paths[b],
            paths == all_paths(source@, target@),
        decreases keys.len() - i,
    {
        if has_alias(&keys, &spelled, keys[i].as_str(), spelled[i].as_str()) {
            proof {
                let j = choose|j: int|
                    0 <= j < keys@.len() && (#[trigger] keys@[j])@ == keys@[i as int]@
                        && spelled@[j]@ != spelled@[i as int]@;
                assert(paths[j] == spelled@[j]@);
                assert(paths[i as int] == spelled@[i as int]@);
                assert(lookup_key(host, paths[j]) == lookup_key(host, paths[i as int]));
                assert(j != i);
                assert(!free_of_aliases(host, paths)) by {
                    if j < i {
                        assert(paths[j] != paths[i as int]);
                    } else {
                        assert(paths[i as int] != paths[j]);
                    }
                }
            }
            return Err(
                refuse(
                    "sync paths differ only in case or Unicode normalization; rename one before syncing",
                ),
            );
        }
        proof {
            assert forall|a: int| 0 <= a < paths.len() && lookup_key(host, #[trigger] paths[a])
                == lookup_key(host, paths[i as int]) implies paths[a] == paths[i as int] by {
                assert(keys@[a]@ == lookup_key(host, spelled@[a]@));
                assert(paths[a] == spelled@[a]@);
                assert(paths[i as int] == spelled@[i as int]@);
            }
        }
        i = i + 1;
    }
    Ok(())
}

/// Whether the tree a box reports fits what it says stands at its root.
pub open spec fn root_kind(entries: TreeView, status: RootStatus) -> Result<(), Refusal> {
    let wanted = match status {
        RootStatus::ExistingDirectory => Some(SyncEntryKind::Directory),
        RootStatus::ExistingFile => Some(SyncEntryKind::File),
        RootStatus::ExistingSymlink => Some(SyncEntryKind::Symlink),
        RootStatus::Missing => None,
    };
    match wanted {
        None => if entries.len() == 0 {
            Ok(())
        } else {
            Err(error::refusal("missing guest root has manifest entries"@))
        },
        Some(kind) => if ordered::lookup(entries, Seq::empty()) matches Some(root) && root.kind == kind {
            Ok(())
        } else {
            Err(error::refusal("guest manifest root does not match session status"@))
        },
    }
}

pub fn validate_root_kind(entries: &Tree, status: RootStatus) -> (verdict: Result<(), Error>)
    ensures
        error::outcome(verdict) == root_kind(entries@, status),
{
    let kind = match status {
        RootStatus::ExistingDirectory => SyncEntryKind::Directory,
        RootStatus::ExistingFile => SyncEntryKind::File,
        RootStatus::ExistingSymlink => SyncEntryKind::Symlink,
        RootStatus::Missing => {
            return if entries.len() == 0 {
                Ok(())
            } else {
                Err(refuse("missing guest root has manifest entries"))
            };
        },
    };
    proof {
        reveal_strlit("");
        assert(""@ =~= Seq::empty());
    }
    match entries.get("") {
        Some(root) => if root.kind == kind {
            Ok(())
        } else {
            Err(refuse("guest manifest root does not match session status"))
        },
        None => Err(refuse("guest manifest root does not match session status")),
    }
}

} // verus!
