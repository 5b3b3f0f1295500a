//! Reading a tree: what is made of each thing found, and how much of it is
//! taken.

use crate::error::{self, Error, Refusal, refuse};
use crate::host::HostOs;
use crate::ordered::{self, TextMap};
use crate::path::{self, join};
use crate::sync::entry::{EntryView, SyncEntry, SyncEntryKind, SyncRules, Tree, TreeView};
use crate::sync::security::{self, to_guest_mode, validate_manifest};
use crate::text::{self, byte_len, same_text, spell, split_text};
use vstd::prelude::*;

verus! {

/// What a host path leads to.
#[derive(Debug, Clone, Copy, PartialEq, Eq, Structural)]
pub enum HostKind {
    Directory,
    Symlink,
    File,
    Special,
}

/// What the host knows of a path, links not followed.
#[derive(Debug)]
pub struct HostFacts {
    pub kind: HostKind,
    pub len: u64,
    pub mode: u32,
    pub readonly: bool,
    pub mtime_secs: i64,
    pub mtime_nanos: u32,
    /// Where a link leads; `None` where that is no text.
    pub link_target: Option<String>,
}

#[verifier::ext_equal]
pub struct FactsView {
    pub kind: HostKind,
    pub len: u64,
    pub mode: u32,
    pub readonly: bool,
    pub mtime_secs: i64,
    pub mtime_nanos: u32,
    pub link_target: Option<Seq<char>>,
}

impl View for HostFacts {
    type V = FactsView;

    open spec fn view(&self) -> FactsView {
        FactsView {
            kind: self.kind,
            len: self.len,
            mode: self.mode,
            readonly: self.readonly,
            mtime_secs: self.mtime_secs,
            mtime_nanos: self.mtime_nanos,
            link_target: text::text_of(self.link_target),
        }
    }
}

/// The entry that stands for what was found under a path. What is neither a
/// directory, a link nor a file has none.
pub open spec fn entry_for(
    path: Seq<char>,
    path_refusal: Option<Seq<char>>,
    facts: FactsView,
    rules: SyncRules,
) -> EntryView {
    EntryView {
        relative_path: path,
        kind: match facts.kind {
            HostKind::Directory => SyncEntryKind::Directory,
            HostKind::Symlink => SyncEntryKind::Symlink,
            _ => SyncEntryKind::File,
        },
        size: if facts.kind == HostKind::File { facts.len } else { 0 },
        mode: if rules.host == HostOs::Windows {
            security::windows_mode(facts.kind == HostKind::Directory, facts.readonly)
        } else {
            facts.mode & 0o777
        },
        mtime_secs: facts.mtime_secs,
        mtime_nanos: facts.mtime_nanos,
        link_target: if facts.kind == HostKind::Symlink { facts.link_target } else { None },
        path_refusal,
    }
}

fn make_entry(
    path: &str,
    path_refusal: Option<String>,
    facts: HostFacts,
    rules: &SyncRules,
) -> (entry: SyncEntry)
    requires
        facts.kind != HostKind::Special,
    ensures
        entry@ == entry_for(path@, text::text_of(path_refusal), facts@, *rules),
{
    let kind = match facts.kind {
        HostKind::Directory => SyncEntryKind::Directory,
        HostKind::Symlink => SyncEntryKind::Symlink,
        _ => SyncEntryKind::File,
    };
    SyncEntry {
        relative_path: path.to_owned(),
        kind,
        size: if facts.kind == HostKind::File { facts.len } else { 0 },
        mode: to_guest_mode(
            rules.host,
            facts.mode,
            facts.kind == HostKind::Directory,
            facts.readonly,
        ),
        mtime_secs: facts.mtime_secs,
        mtime_nanos: facts.mtime_nanos,
        link_target: if facts.kind == HostKind::Symlink { facts.link_target } else { None },
        path_refusal,
    }
}

/// The tree of a root alone, or why it cannot be copied.
pub open spec fn root_entry(path: Seq<char>, facts: FactsView, rules: SyncRules) -> Result<
    TreeView,
    Refusal,
> {
    if facts.kind == HostKind::Special {
        Err(error::refusal("unsupported special file: "@ + path))
    } else if facts.kind == HostKind::Symlink && facts.link_target is None {
        Err(error::refusal("non-UTF-8 symlink target"@))
    } else if facts.len > rules.max_file_bytes {
        Err(error::refusal("file exceeds sync size limit"@))
    } else {
        Ok(seq![(Seq::empty(), entry_for(Seq::empty(), None, facts, rules))])
    }
}

pub fn single_host_entry_map(path: &str, facts: HostFacts, rules: &SyncRules) -> (tree: Result<
    Tree,
    Error,
>)
    ensures
        match tree {
            Ok(entries) => root_entry(path@, facts@, *rules) == Ok::<_, Refusal>(entries@),
            Err(error) => root_entry(path@, facts@, *rules) == Err::<TreeView, _>(error@),
        },
{
    if facts.kind == HostKind::Special {
        let mut message: String = "unsupported special file: ".to_owned();
        message.append(path);
        return Err(Error::new(message));
    }
    if facts.kind == HostKind::Symlink && facts.link_target.is_none() {
        return Err(refuse("non-UTF-8 symlink target"));
    }
    if facts.len > rules.max_file_bytes {
        return Err(refuse("file exceeds sync size limit"));
    }
    proof {
        reveal_strlit("");
        assert(""@ =~= Seq::empty());
    }
    let entry = make_entry("", None, facts, rules);
    let mut entries: Tree = TextMap::new();
    entries.insert(String::new(), entry);
    Ok(entries)
}

/// A tree being read: what was taken, the bytes its paths and targets count
/// for, and the directories still to read.
#[verifier::ext_equal]
pub struct ScanView {
    pub entries: TreeView,
    pub metadata_bytes: nat,
    pub pending: Seq<Seq<char>>,
}

/// A tree being read.
#[derive(Debug)]
pub struct Scan {
    entries: Tree,
    metadata_bytes: usize,
    pending: Vec<String>,
    read: usize,
    rules: SyncRules,
}

impl View for Scan {
    type V = ScanView;

    closed spec fn view(&self) -> ScanView {
        ScanView {
            entries: self.entries@,
            metadata_bytes: self.metadata_bytes as nat,
            pending: text::texts(self.pending@).skip(self.read as int),
        }
    }
}

/// What comes of waiting for a box to report its tree.
#[derive(Debug)]
pub enum ReportEvent {
    Late,
    Entry(SyncEntry),
    Complete,
    /// Something else, as it shows.
    Other(String),
}

/// What an entry counts for.
pub open spec fn metadata_of(entry: EntryView) -> nat {
    text::utf8_len(entry.relative_path) + (match entry.link_target {
        Some(target) => text::utf8_len(target),
        None => 0,
    }) + 32
}

/// What is held against one entry more; `whose` is put before the message.
pub open spec fn budget_verdict(
    scan: ScanView,
    entry: EntryView,
    whose: Seq<char>,
    rules: SyncRules,
) -> Result<(), Refusal> {
    if scan.entries.len() >= rules.max_entries {
        Err(
            error::refusal(
                whose + "manifest exceeds maximum entry budget of "@ + text::decimal(
                    rules.max_entries as nat,
                ) + " entries"@,
            ),
        )
    } else if scan.metadata_bytes + metadata_of(entry) > rules.max_metadata_bytes {
        Err(
            error::refusal(
                whose + "manifest exceeds maximum metadata budget of "@ + text::decimal(
                    rules.max_metadata_bytes as nat,
                ) + " bytes"@,
            ),
        )
    } else {
        Ok(())
    }
}

/// What is held against a thing found on the host.
pub open spec fn host_verdict(
    scan: ScanView,
    full: Seq<char>,
    rel: Seq<char>,
    path_refusal: Option<Seq<char>>,
    facts: FactsView,
    rules: SyncRules,
) -> Result<(), Refusal> {
    if facts.kind == HostKind::Symlink && facts.link_target is None {
        Err(error::refusal("non-utf8 symlink target in "@ + full))
    } else if facts.kind == HostKind::Special {
        Err(error::refusal("unsupported special file: "@ + full))
    } else if let Some(refused) = path_refusal {
        Err(error::refusal(refused))
    } else if facts.len > rules.max_file_bytes {
        Err(error::refusal("file exceeds sync size limit"@))
    } else {
        budget_verdict(scan, entry_for(rel, None, facts, rules), Seq::empty(), rules)
    }
}

/// A scan with one entry more.
pub open spec fn taken_in(scan: ScanView, entry: EntryView) -> ScanView {
    ScanView {
        entries: ordered::with_entry(scan.entries, entry.relative_path, entry),
        metadata_bytes: scan.metadata_bytes + metadata_of(entry),
        pending: scan.pending,
    }
}

/// What is held against an entry that comes out of a box.
pub open spec fn guest_verdict(scan: ScanView, entry: EntryView, rules: SyncRules) -> Result<
    (),
    Refusal,
> {
    if let Some(refused) = entry.path_refusal {
        Err(error::refusal("invalid guest path: "@ + refused))
    } else if budget_verdict(scan, entry, "guest "@, rules) is Err {
        budget_verdict(scan, entry, "guest "@, rules)
    } else if ordered::has_key(scan.entries, entry.relative_path) {
        Err(error::refusal("guest manifest contains a duplicate path"@))
    } else {
        Ok(())
    }
}

/// The path of a thing found in a directory of the tree; the two dots are
/// passed over.
pub open spec fn child_path(directory: Seq<char>, name: Seq<char>) -> Option<Seq<char>> {
    if name == "."@ || name == ".."@ {
        None
    } else if directory.len() == 0 {
        Some(name)
    } else {
        Some(path::placed(directory, name))
    }
}

pub fn name_child(directory: &str, name: &str) -> (path: Option<String>)
    ensures
        text::text_of(path) == child_path(directory@, name@),
{
    if same_text(name, ".") || same_text(name, "..") {
        None
    } else if directory.unicode_len() == 0 {
        Some(name.to_owned())
    } else {
        Some(join(directory, name))
    }
}

impl Scan {
    /// What the scan is held to.
    pub closed spec fn limits(&self) -> SyncRules {
        self.rules
    }

    #[verifier::type_invariant]
    spec fn wf(self) -> bool {
        self.read <= self.pending@.len() && self.metadata_bytes <= self.rules.max_metadata_bytes
    }

    /// A scan of a host directory: its root is taken, and to be read next.
    pub fn of_host_directory(root: Tree, rules: SyncRules) -> (scan: Scan)
        ensures
            scan@ == (ScanView {
                entries: root@,
                metadata_bytes: 0,
                pending: seq![Seq::empty()],
            }),
            scan.limits() == rules,
    {
        let mut pending: Vec<String> = Vec::new();
        pending.push(String::new());
        let scan = Scan { entries: root, metadata_bytes: 0, pending, read: 0, rules };
        proof {
            assert(scan@.pending =~= seq![Seq::empty()]);
        }
        scan
    }

    /// A scan of what a box reports: nothing yet.
    pub fn of_guest(rules: SyncRules) -> (scan: Scan)
        ensures
            scan@ == (ScanView {
                entries: Seq::empty(),
                metadata_bytes: 0,
                pending: Seq::empty(),
            }),
            scan.limits() == rules,
    {
        let scan = Scan {
            entries: TextMap::new(),
            metadata_bytes: 0,
            pending: Vec::new(),
            read: 0,
            rules,
        };
        proof {
            assert(scan@.pending =~= Seq::empty());
        }
        scan
    }

    /// The next directory to read, in the order they were found.
    pub fn next_directory(&mut self) -> (directory: Option<String>)
        ensures
            final(self).limits() == old(self).limits(),
            text::text_of(directory) == (if old(self)@.pending.len() == 0 {
                None
            } else {
                Some(old(self)@.pending[0])
            }),
            final(self)@ == (ScanView {
                pending: if old(self)@.pending.len() == 0 {
                    old(self)@.pending
                } else {
                    old(self)@.pending.drop_first()
                },
                ..old(self)@
            }),
    {
        proof {
            use_type_invariant(&*self);
        }
        let ghost before = self@;
        if self.read < self.pending.len() {
            let directory = self.pending[self.read].as_str().to_owned();
            self.read = self.read + 1;
            proof {
                assert(self@.pending =~= before.pending.drop_first());
            }
            Some(directory)
        } else {
            None
        }
    }

    /// Counts an entry, where there is room for it.
    fn check_budget(&self, entry: &SyncEntry, whose: &str) -> (counted: Result<usize, Error>)
        ensures
            match counted {
                Ok(total) => budget_verdict(self@, entry@, whose@, self.limits()) is Ok && total
                    == self@.metadata_bytes + metadata_of(entry@) && total
                    <= self.limits().max_metadata_bytes,
                Err(error) => budget_verdict(self@, entry@, whose@, self.limits()) == Err::<(), _>(
                    error@,
                ),
            },
    {
        let target_bytes: usize = match &entry.link_target {
            Some(target) => byte_len(target.as_str()),
            None => 0,
        };
        let total: u128 = self.metadata_bytes as u128 + byte_len(entry.relative_path.as_str()) as u128
            + target_bytes as u128 + 32;
        if self.entries.len() >= self.rules.max_entries {
            let mut message: String = whose.to_owned();
            message.append("manifest exceeds maximum entry budget of ");
            message.append(spell(self.rules.max_entries as u64).as_str());
            message.append(" entries");
            return Err(Error::new(message));
        }
        if total > self.rules.max_metadata_bytes as u128 {
            let mut message: String = whose.to_owned();
            message.append("manifest exceeds maximum metadata budget of ");
            message.append(spell(self.rules.max_metadata_bytes as u64).as_str());
            message.append(" bytes");
            return Err(Error::new(message));
        }
        Ok(total as usize)
    }

    fn take_in(&mut self, entry: SyncEntry, total: usize)
        requires
            total == old(self)@.metadata_bytes + metadata_of(entry@),
            total <= old(self).limits().max_metadata_bytes,
        ensures
            final(self).limits() == old(self).limits(),
            final(self)@ == taken_in(old(self)@, entry@),
    {
        proof {
            use_type_invariant(&*self);
        }
        let key = entry.relative_path.as_str().to_owned();
        let mut entries: Tree = TextMap::new();
        std::mem::swap(&mut entries, &mut self.entries);
        entries.insert(key, entry);
        self.entries = entries;
        self.metadata_bytes = total;
    }

    /// Takes a thing found on the host; a directory is read later. `full`
    /// names it in messages, and `path_refusal` is what the wire protocol
    /// holds against its path.
    pub fn take_host_entry(
        &mut self,
        full: &str,
        rel: &str,
        path_refusal: Option<String>,
        facts: HostFacts,
    ) -> (taken: Result<(), Error>)
        ensures
            final(self).limits() == old(self).limits(),
            error::outcome(taken) == host_verdict(
                old(self)@,
                full@,
                rel@,
                text::text_of(path_refusal),
                facts@,
                old(self).limits(),
            ),
            match taken {
                Err(_) => final(self)@ == old(self)@,
                Ok(_) => {
                    let next = taken_in(
                        old(self)@,
                        entry_for(rel@, None, facts@, old(self).limits()),
                    );
                    final(self)@ == (ScanView {
                        pending: if facts.kind == HostKind::Directory {
                            next.pending.push(rel@)
                        } else {
                            next.pending
                        },
                        ..next
                    })
                },
            },
    {
        if facts.kind == HostKind::Symlink && facts.link_target.is_none() {
            let mut message: String = "non-utf8 symlink target in ".to_owned();
            message.append(full);
            return Err(Error::new(message));
        }
        if facts.kind == HostKind::Special {
            let mut message: String = "unsupported special file: ".to_owned();
            message.append(full);
            return Err(Error::new(message));
        }
        if let Some(refused) = path_refusal {
            return Err(Error::new(refused));
        }
        if facts.len > self.rules.max_file_bytes {
            return Err(refuse("file exceeds sync size limit"));
        }
        let is_dir = facts.kind == HostKind::Directory;
        let entry = make_entry(rel, None, facts, &self.rules);
        proof {
            reveal_strlit("");
            assert(""@ =~= Seq::empty());
        }
        let total: usize = match self.check_budget(&entry, "") {
            Ok(total) => total,
            Err(error) => {
                return Err(error);
            },
        };
        self.take_in(entry, total);
        if is_dir {
            proof {
                use_type_invariant(&*self);
            }
            let ghost before = self@;
            let ghost list = self.pending@;
            let mut pending: Vec<String> = Vec::new();
            let read: usize = self.read;
            self.read = 0;
            std::mem::swap(&mut pending, &mut self.pending);
            pending.push(rel.to_owned());
            self.pending = pending;
            self.read = read;
            proof {
                crate::text::lemma_texts_push(list, self.pending@.last());
                assert(self@.pending =~= before.pending.push(rel@));
            }
        }
        Ok(())
    }

    /// Takes an entry that a box reports.
    pub fn take_guest_entry(&mut self, entry: SyncEntry) -> (taken: Result<(), Error>)
        ensures
            final(self).limits() == old(self).limits(),
            error::outcome(taken) == guest_verdict(old(self)@, entry@, old(self).limits()),
            match taken {
                Err(_) => final(self)@ == old(self)@,
                Ok(_) => final(self)@ == taken_in(old(self)@, entry@),
            },
    {
        if let Some(refused) = &entry.path_refusal {
            let mut message: String = "invalid guest path: ".to_owned();
            message.append(refused.as_str());
            return Err(Error::new(message));
        }
        let total: usize = match self.check_budget(&entry, "guest ") {
            Ok(total) => total,
            Err(error) => {
                return Err(error);
            },
        };
        if self.entries.contains_key(entry.relative_path.as_str()) {
            return Err(refuse("guest manifest contains a duplicate path"));
        }
        self.take_in(entry, total);
        Ok(())
    }

    /// Takes in what came of waiting for a box's report: whether it is
    /// complete.
    pub fn take_guest_report(&mut self, event: ReportEvent) -> (taken: Result<bool, Error>)
        ensures
            final(self).limits() == old(self).limits(),
            match (event, taken) {
                (ReportEvent::Entry(entry), Ok(is_complete)) => !is_complete && guest_verdict(
                    old(self)@,
                    entry@,
                    old(self).limits(),
                ) is Ok && final(self)@ == taken_in(old(self)@, entry@),
                (ReportEvent::Entry(entry), Err(error)) => guest_verdict(
                    old(self)@,
                    entry@,
                    old(self).limits(),
                ) == Err::<(), _>(error@) && final(self)@ == old(self)@,
                (ReportEvent::Complete, Ok(is_complete)) => is_complete && final(self)@ == old(self)@,
                (ReportEvent::Late, Err(error)) => error@ == error::refusal(
                    "guest scan exceeded its time limit"@,
                ) && final(self)@ == old(self)@,
                (ReportEvent::Other(got), Err(error)) => error@ == error::refusal(
                    "unexpected reply from agent during scan: "@ + got@,
                ) && final(self)@ == old(self)@,
                _ => false,
            },
    {
        match event {
            ReportEvent::Entry(entry) => match self.take_guest_entry(entry) {
                Ok(()) => Ok(false),
                Err(error) => Err(error),
            },
            ReportEvent::Complete => Ok(true),
            ReportEvent::Late => Err(refuse("guest scan exceeded its time limit")),
            ReportEvent::Other(got) => {
                let mut message: String = "unexpected reply from agent during scan: ".to_owned();
                message.append(got.as_str());
                Err(Error::new(message))
            },
        }
    }

    /// What a host directory holds.
    pub fn into_entries(self) -> (entries: Tree)
        ensures
            entries@ == self@.entries,
    {
        self.entries
    }

    /// What a box reported, where it is a tree.
    pub fn finish_guest(self) -> (entries: Result<Tree, Error>)
        ensures
            match entries {
                Ok(tree) => security::manifest_verdict(self@.entries, self.limits()) is Ok && tree@
                    == self@.entries,
                Err(error) => security::manifest_verdict(self@.entries, self.limits()) == Err::<(), _>(error@),
            },
    {
        let rules = self.rules;
        let entries = self.entries;
        match validate_manifest(&entries, &rules) {
            Ok(_) => Ok(entries),
            Err(error) => Err(error),
        }
    }
}

proof fn lemma_one_entry_more(entries: TreeView, key: Seq<char>, value: EntryView)
    ensures
        ordered::with_entry(entries, key, value).len() <= entries.len() + 1,
    decreases entries.len(),
{
    if entries.len() > 0 {
        lemma_one_entry_more(entries.drop_first(), key, value);
    }
}

/// Whatever is found on the host or reported by a box, a scan never takes in
/// more entries, or more bytes of paths and link targets, than it may.
pub proof fn scans_stay_within_their_budget(
    scan: ScanView,
    entry: EntryView,
    whose: Seq<char>,
    rules: SyncRules,
)
    requires
        budget_verdict(scan, entry, whose, rules) is Ok,
    ensures
        taken_in(scan, entry).entries.len() <= rules.max_entries,
        taken_in(scan, entry).metadata_bytes <= rules.max_metadata_bytes,
{
    lemma_one_entry_more(scan.entries, entry.relative_path, entry);
}

/// The paths from a root down to a file below it, the root first.
pub open spec fn steps_down(root: Seq<char>, names: Seq<Seq<char>>) -> Seq<Seq<char>>
    decreases names.len(),
{
    if names.len() == 0 {
        seq![root]
    } else {
        let above = steps_down(root, names.drop_last());
        above.push(path::placed(above.last(), names.last()))
    }
}

/// The paths to look at before a file of the tree is touched: all but the
/// last, which is the file itself, have to be directories where they exist.
pub open spec fn host_path_steps(root: Seq<char>, relative: Seq<char>) -> Seq<Seq<char>> {
    if relative.len() == 0 {
        seq![root]
    } else {
        steps_down(root, text::pieces(relative, '/'))
    }
}

pub fn list_host_path_steps(root: &str, relative: &str) -> (list: Vec<String>)
    ensures
        text::texts(list@) == host_path_steps(root@, relative@),
        list@.len() >= 1,
{
    let mut list: Vec<String> = Vec::new();
    let ghost none = list@;
    list.push(root.to_owned());
    proof {
        crate::text::lemma_texts_push(none, list@.last());
        assert(text::texts(list@) =~= seq![root@]);
    }
    if relative.unicode_len() == 0 {
        return list;
    }
    let names = split_text(relative, '/');
    let mut i: usize = 0;
    proof {
        assert(text::texts(names@).take(0) =~= Seq::empty());
    }
    while i < names.len()
        invariant
            i <= names@.len(),
            list@.len() == i + 1,
            text::texts(list@) == steps_down(root@, text::texts(names@).take(i as int)),
        decreases names.len() - i,
    {
        let ghost before = list@;
        let next = join(list[i].as_str(), names[i].as_str());
        list.push(next);
        proof {
            crate::text::lemma_texts_push(before, list@.last());
            assert(text::texts(names@).take(i + 1).drop_last() =~= text::texts(names@).take(i as int));
            assert(text::texts(names@).take(i + 1).last() == names@[i as int]@);
            assert(text::texts(before).last() == before[i as int]@);
        }
        i = i + 1;
    }
    proof {
        assert(text::texts(names@).take(i as int) =~= text::texts(names@));
    }
    list
}

/// What is held against a directory above a file of the tree, by whether it
/// exists and is one.
pub fn check_sync_parent(path: &str, is_existing: bool, is_dir: bool) -> (verdict: Result<(), Error>)
    ensures
        error::outcome(verdict) == (if is_existing && !is_dir {
            Err(error::refusal("sync parent must be a directory: "@ + path@))
        } else {
            Ok(())
        }),
{
    if is_existing && !is_dir {
        let mut message: String = "sync parent must be a directory: ".to_owned();
        message.append(path);
        return Err(Error::new(message));
    }
    Ok(())
}

} // verus!
