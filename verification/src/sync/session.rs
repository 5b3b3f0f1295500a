//! The decisions of one transfer, from the two paths to the root it writes.

use crate::error::{self, Error, Refusal, refuse};
use crate::path::{self, file_name_of, is_equivalent};
use crate::render::{self, escape_printable};
use crate::sync::endpoint::{self, DestinationPlacement, SourcePlacement, resolve_placement};
use crate::sync::entry::RootStatus;
use crate::sync::scan::HostKind;
use crate::text;
use vstd::prelude::*;

verus! {

/// What is held against a host path to copy, before the box is asked.
pub open spec fn upload_source(
    path: Seq<char>,
    kind: Option<HostKind>,
    has_trailing: bool,
    is_delete: bool,
) -> Result<(), Refusal> {
    match kind {
        None => Err(error::refusal("source does not exist: "@ + path)),
        Some(kind) => if kind == HostKind::Symlink && has_trailing {
            Err(error::refusal("source is a symlink but has a trailing separator"@))
        } else if kind == HostKind::Special {
            Err(error::refusal("unsupported special file: "@ + path))
        } else if is_delete && kind != HostKind::Directory {
            Err(error::refusal("--delete is valid only when synchronizing a directory"@))
        } else {
            Ok(())
        },
    }
}

pub fn check_upload_source(
    path: &str,
    kind: Option<HostKind>,
    has_trailing: bool,
    is_delete: bool,
) -> (verdict: Result<(), Error>)
    ensures
        error::outcome(verdict) == upload_source(path@, kind, has_trailing, is_delete),
{
    let kind = match kind {
        Some(kind) => kind,
        None => {
            let mut message: String = "source does not exist: ".to_owned();
            message.append(path);
            return Err(Error::new(message));
        },
    };
    if kind == HostKind::Symlink && has_trailing {
        return Err(refuse("source is a symlink but has a trailing separator"));
    }
    if kind == HostKind::Special {
        let mut message: String = "unsupported special file: ".to_owned();
        message.append(path);
        return Err(Error::new(message));
    }
    if is_delete && kind != HostKind::Directory {
        return Err(refuse("--delete is valid only when synchronizing a directory"));
    }
    Ok(())
}

/// The name of what a path leads to; the root has none.
pub open spec fn name_at(path: Seq<char>) -> Seq<char> {
    match path::file_name(path) {
        Some(name) => name,
        None => Seq::empty(),
    }
}

fn read_name(path: &str) -> (name: String)
    ensures
        name@ == name_at(path@),
{
    match file_name_of(path) {
        Some(name) => name,
        None => String::new(),
    }
}

/// Where in the box a host path is copied to, once the box has said what
/// stands at the destination.
pub open spec fn upload_root(
    src: Seq<char>,
    is_dir: bool,
    src_trailing: bool,
    dst: Seq<char>,
    dst_trailing: bool,
    status: RootStatus,
) -> Result<Seq<char>, Refusal> {
    if dst_trailing && (status == RootStatus::ExistingFile || status == RootStatus::ExistingSymlink) {
        Err(
            error::refusal(
                "destination "@ + dst + " ends in a separator but is an existing file"@,
            ),
        )
    } else {
        Ok(
            endpoint::placement(
                name_at(src),
                is_dir,
                src_trailing || name_at(src).len() == 0,
                dst,
                status == RootStatus::ExistingDirectory,
                dst_trailing,
            ),
        )
    }
}

pub fn place_upload(
    src: &str,
    is_dir: bool,
    src_trailing: bool,
    dst: &str,
    dst_trailing: bool,
    status: RootStatus,
) -> (root: Result<String, Error>)
    ensures
        match root {
            Ok(path) => upload_root(src@, is_dir, src_trailing, dst@, dst_trailing, status) == Ok::<
                _,
                Refusal,
            >(path@),
            Err(error) => upload_root(src@, is_dir, src_trailing, dst@, dst_trailing, status)
                == Err::<Seq<char>, _>(error@),
        },
{
    if dst_trailing && (status == RootStatus::ExistingFile || status
        == RootStatus::ExistingSymlink) {
        let mut message: String = "destination ".to_owned();
        message.append(dst);
        message.append(" ends in a separator but is an existing file");
        return Err(Error::new(message));
    }
    let name = read_name(src);
    let has_trailing = src_trailing || name.as_str().unicode_len() == 0;
    Ok(
        resolve_placement(
            SourcePlacement { name: name.as_str(), is_dir, has_trailing },
            DestinationPlacement {
                path: dst,
                is_existing_dir: status == RootStatus::ExistingDirectory,
                has_trailing: dst_trailing,
            },
        ),
    )
}

/// What is held against a path in the box to copy.
pub open spec fn download_source(
    src: Seq<char>,
    status: RootStatus,
    has_trailing: bool,
    is_delete: bool,
) -> Result<(), Refusal> {
    if status == RootStatus::Missing {
        Err(error::refusal("guest source "@ + src + " does not exist"@))
    } else if status == RootStatus::ExistingSymlink && has_trailing {
        Err(error::refusal("guest source "@ + src + " is a symlink but has a trailing separator"@))
    } else if is_delete && status != RootStatus::ExistingDirectory {
        Err(error::refusal("--delete is valid only when synchronizing a directory"@))
    } else {
        Ok(())
    }
}

pub fn check_download_source(src: &str, status: RootStatus, has_trailing: bool, is_delete: bool) -> (
    verdict: Result<(), Error>)
    ensures
        error::outcome(verdict) == download_source(src@, status, has_trailing, is_delete),
{
    if status == RootStatus::Missing {
        let mut message: String = "guest source ".to_owned();
        message.append(src);
        message.append(" does not exist");
        return Err(Error::new(message));
    }
    if status == RootStatus::ExistingSymlink && has_trailing {
        let mut message: String = "guest source ".to_owned();
        message.append(src);
        message.append(" is a symlink but has a trailing separator");
        return Err(Error::new(message));
    }
    if is_delete && status != RootStatus::ExistingDirectory {
        return Err(refuse("--delete is valid only when synchronizing a directory"));
    }
    Ok(())
}

/// Where on the host a path of the box is copied to; `is_dir` says what
/// stands at the destination, `None` where nothing does. A link may not take
/// the place of the destination itself: its target would be read from
/// outside.
pub open spec fn download_root(
    src: Seq<char>,
    status: RootStatus,
    src_trailing: bool,
    dst: Seq<char>,
    dst_trailing: bool,
    is_dir: Option<bool>,
) -> Result<Seq<char>, Refusal> {
    let root = endpoint::placement(
        name_at(src),
        status == RootStatus::ExistingDirectory,
        src_trailing || name_at(src).len() == 0,
        dst,
        is_dir == Some(true),
        dst_trailing,
    );
    if dst_trailing && is_dir == Some(false) {
        Err(
            error::refusal(
                "destination "@ + dst + " ends in a separator but is an existing file"@,
            ),
        )
    } else if status == RootStatus::ExistingSymlink && path::equivalent(root, dst) {
        Err(
            error::refusal(
                "cannot sync guest symlink "@ + src + " to "@ + dst
                    + ": the link target would resolve outside the destination; sync the link's target instead, or place the link inside a directory destination"@,
            ),
        )
    } else {
        Ok(root)
    }
}

pub fn place_download(
    src: &str,
    status: RootStatus,
    src_trailing: bool,
    dst: &str,
    dst_trailing: bool,
    is_dir: Option<bool>,
) -> (root: Result<String, Error>)
    ensures
        match root {
            Ok(path) => download_root(src@, status, src_trailing, dst@, dst_trailing, is_dir)
                == Ok::<_, Refusal>(path@),
            Err(error) => download_root(src@, status, src_trailing, dst@, dst_trailing, is_dir)
                == Err::<Seq<char>, _>(error@),
        },
{
    let is_existing_dir = match is_dir {
        Some(yes) => yes,
        None => false,
    };
    if dst_trailing && is_dir.is_some() && !is_existing_dir {
        let mut message: String = "destination ".to_owned();
        message.append(dst);
        message.append(" ends in a separator but is an existing file");
        return Err(Error::new(message));
    }
    let name = read_name(src);
    let has_trailing = src_trailing || name.as_str().unicode_len() == 0;
    let root = resolve_placement(
        SourcePlacement {
            name: name.as_str(),
            is_dir: status == RootStatus::ExistingDirectory,
            has_trailing,
        },
        DestinationPlacement { path: dst, is_existing_dir, has_trailing: dst_trailing },
    );
    if status == RootStatus::ExistingSymlink && is_equivalent(root.as_str(), dst) {
        let mut message: String = "cannot sync guest symlink ".to_owned();
        message.append(src);
        message.append(" to ");
        message.append(dst);
        message.append(
            ": the link target would resolve outside the destination; sync the link's target instead, or place the link inside a directory destination",
        );
        return Err(Error::new(message));
    }
    Ok(root)
}

/// An error of a transfer as it is shown: one message, nothing in it that a
/// terminal acts on.
pub fn escape_error(error: Error) -> (shown: Error)
    ensures
        shown@ == error::refusal(render::printable(text::joined(error@, ": "@))),
{
    Error::new(escape_printable(error.full_message().as_str()))
}

} // verus!
