//! What a tree to synchronise is made of.

use crate::host::HostOs;
use crate::ordered::TextMap;
use crate::text;
use vstd::prelude::*;

verus! {

#[derive(Debug, Clone, Copy, PartialEq, Eq, Structural)]
pub enum SyncDirection {
    HostToGuest,
    GuestToHost,
}

#[derive(Debug, Clone, Copy, PartialEq, Eq, Structural)]
pub enum SyncEntryKind {
    File,
    Directory,
    Symlink,
}

/// What stands at the root of a transfer.
#[derive(Debug, Clone, Copy, PartialEq, Eq, Structural)]
pub enum RootStatus {
    ExistingDirectory,
    ExistingFile,
    ExistingSymlink,
    Missing,
}

/// One file, directory or link of a tree.
#[derive(Debug)]
pub struct SyncEntry {
    pub relative_path: String,
    pub kind: SyncEntryKind,
    pub size: u64,
    pub mode: u32,
    pub mtime_secs: i64,
    pub mtime_nanos: u32,
    pub link_target: Option<String>,
    /// What the wire protocol's own check holds against the path the entry
    /// stands under.
    pub path_refusal: Option<String>,
}

#[verifier::ext_equal]
pub struct EntryView {
    pub relative_path: Seq<char>,
    pub kind: SyncEntryKind,
    pub size: u64,
    pub mode: u32,
    pub mtime_secs: i64,
    pub mtime_nanos: u32,
    pub link_target: Option<Seq<char>>,
    pub path_refusal: Option<Seq<char>>,
}

impl View for SyncEntry {
    type V = EntryView;

    open spec fn view(&self) -> EntryView {
        EntryView {
            relative_path: self.relative_path@,
            kind: self.kind,
            size: self.size,
            mode: self.mode,
            mtime_secs: self.mtime_secs,
            mtime_nanos: self.mtime_nanos,
            link_target: text::text_of(self.link_target),
            path_refusal: text::text_of(self.path_refusal),
        }
    }
}

/// A tree: its entries by path, the root under the empty one.
pub type Tree = TextMap<SyncEntry>;

/// What a tree shows: its entries in the order of their paths.
pub type TreeView = Seq<(Seq<char>, EntryView)>;

/// What a transfer is held to.
#[derive(Debug, Clone, Copy, PartialEq, Eq, Structural)]
pub struct SyncRules {
    pub host: HostOs,
    /// The largest file, in bytes.
    pub max_file_bytes: u64,
    /// The longest path or link target, in bytes.
    pub max_path_bytes: usize,
    /// How much of a message from the box is repeated.
    pub max_error_chars: usize,
    /// The most entries a tree may have.
    pub max_entries: usize,
    /// The most bytes the paths and link targets of a tree may take.
    pub max_metadata_bytes: usize,
}

} // verus!
