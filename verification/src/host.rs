//! The host: its kind, how it reads paths, and the home directory on it.

use crate::path::{self, join, starts_at_root};
use crate::text::{chars_of, text_between};
use vstd::prelude::*;

verus! {

/// The system of the host.
#[derive(Debug, Clone, Copy, PartialEq, Eq, Structural)]
pub enum HostOs {
    Linux,
    MacOs,
    Windows,
}

/// What is known of the home directory: where it is, or why that is not known,
/// and the system it is on.
#[derive(Debug)]
pub struct Home {
    pub dir: Result<String, String>,
    pub os: HostOs,
}

#[verifier::ext_equal]
pub struct HomeView {
    pub dir: Result<Seq<char>, Seq<char>>,
    pub os: HostOs,
}

impl View for Home {
    type V = HomeView;

    open spec fn view(&self) -> HomeView {
        HomeView {
            dir: match self.dir {
                Ok(dir) => Ok(dir@),
                Err(message) => Err(message@),
            },
            os: self.os,
        }
    }
}

/// Whether a character separates the steps of a path.
pub open spec fn separates(c: char, os: HostOs) -> bool {
    c == '/' || os == HostOs::Windows && c == '\\'
}

/// A path with every backslash read as a separator.
pub open spec fn slashed(path: Seq<char>) -> Seq<char> {
    Seq::new(
        path.len(),
        |i: int|
            if path[i] == '\\' {
                '/'
            } else {
                path[i]
            },
    )
}

/// A path as a host reads it, spelled with slashes.
pub open spec fn with_slashes(path: Seq<char>, os: HostOs) -> Seq<char> {
    if os == HostOs::Windows {
        slashed(path)
    } else {
        path
    }
}

/// A path with the host's separators spelled as slashes.
pub fn to_slashes(path: &str, os: HostOs) -> (text: String)
    ensures
        text@ == with_slashes(path@, os),
{
    if os != HostOs::Windows {
        return path.to_owned();
    }
    let chars = chars_of(path);
    let mut text: String = String::new();
    let mut i: usize = 0;
    proof {
        assert(text@ =~= slashed(path@).take(0));
    }
    while i < chars.len()
        invariant
            i <= chars@.len(),
            chars@ == path@,
            text@ == slashed(path@).take(i as int),
        decreases chars.len() - i,
    {
        if chars[i] == '\\' {
            text.push('/');
        } else {
            text.push(chars[i]);
        }
        proof {
            assert(text@ =~= slashed(path@).take(i + 1));
        }
        i = i + 1;
    }
    proof {
        assert(slashed(path@).take(i as int) =~= slashed(path@));
    }
    text
}

/// Whether a path begins with the letter of a drive.
pub open spec fn has_drive(path: Seq<char>, os: HostOs) -> bool {
    os == HostOs::Windows && path.len() >= 2 && ('a' <= path[0] <= 'z' || 'A' <= path[0] <= 'Z')
        && path[1] == ':'
}

fn begins_with_drive(path: &str, os: HostOs) -> (yes: bool)
    ensures
        yes == has_drive(path@, os),
{
    if os != HostOs::Windows || path.unicode_len() < 2 {
        return false;
    }
    let c: char = path.get_char(0);
    ('a' <= c && c <= 'z' || 'A' <= c && c <= 'Z') && path.get_char(1) == ':'
}

/// A path without its drive, spelled with slashes.
pub open spec fn past_drive(path: Seq<char>, os: HostOs) -> Seq<char> {
    if has_drive(path, os) {
        with_slashes(path, os).skip(2)
    } else {
        with_slashes(path, os)
    }
}

/// A path behind its drive, which names no step of it.
pub fn skip_drive(path: &str, os: HostOs) -> (rest: String)
    ensures
        rest@ == past_drive(path@, os),
{
    let text = to_slashes(path, os);
    if !begins_with_drive(path, os) {
        return text;
    }
    let chars = chars_of(text.as_str());
    let rest = text_between(&chars, 2, chars.len());
    proof {
        assert(rest@ =~= text@.skip(2));
    }
    rest
}

/// Whether a path, spelled with slashes, says on its own where it leads. On
/// Windows that takes a drive or a share.
pub open spec fn is_absolute(path: Seq<char>, os: HostOs) -> bool {
    if os == HostOs::Windows {
        has_drive(path, os) && path.len() > 2 && path[2] == '/' || path.len() > 2 && path[0] == '/'
            && path[1] == '/'
    } else {
        path::is_absolute(path)
    }
}

pub fn stands_alone(path: &str, os: HostOs) -> (yes: bool)
    ensures
        yes == is_absolute(path@, os),
{
    if os != HostOs::Windows {
        return starts_at_root(path);
    }
    let n: usize = path.unicode_len();
    if n <= 2 {
        return false;
    }
    begins_with_drive(path, os) && path.get_char(2) == '/' || path.get_char(0) == '/'
        && path.get_char(1) == '/'
}

/// A path, spelled with slashes, under a directory of the host: one with a drive
/// stands for itself, and one from the root lies on the directory's drive.
pub open spec fn placed(base: Seq<char>, path: Seq<char>, os: HostOs) -> Seq<char> {
    if has_drive(path, os) {
        path
    } else if has_drive(base, os) && path::is_absolute(path) && !is_absolute(path, os) {
        base.take(2) + path
    } else {
        path::placed(base, path)
    }
}

pub fn join_on(base: &str, path: &str, os: HostOs) -> (whole: String)
    ensures
        whole@ == placed(base@, path@, os),
{
    if begins_with_drive(path, os) {
        return path.to_owned();
    }
    if begins_with_drive(base, os) && starts_at_root(path) && !stands_alone(path, os) {
        let chars = chars_of(base);
        let mut whole = text_between(&chars, 0, 2);
        proof {
            assert(whole@ =~= base@.take(2));
        }
        whole.append(path);
        return whole;
    }
    join(base, path)
}

} // verus!
