//! The two ends of a transfer: which side they are on, and where what is
//! copied ends up.

use crate::error::{self, Error, Refusal, refuse};
use crate::host::HostOs;
use crate::path::{self, normalize};
use crate::sync::entry::SyncDirection;
use crate::text::{self, chars_of, find_char, starts_with, text_between, trim_trailing};
use vstd::prelude::*;

verus! {

/// One end of a transfer.
#[derive(Debug, PartialEq, Eq)]
pub enum Endpoint {
    Guest { path: String, has_trailing_separator: bool },
    Host { path: String, has_trailing_separator: bool },
}

#[verifier::ext_equal]
pub enum EndpointView {
    Guest { path: Seq<char>, has_trailing_separator: bool },
    Host { path: Seq<char>, has_trailing_separator: bool },
}

impl View for Endpoint {
    type V = EndpointView;

    open spec fn view(&self) -> EndpointView {
        match self {
            Endpoint::Guest { path, has_trailing_separator } => EndpointView::Guest {
                path: path@,
                has_trailing_separator: *has_trailing_separator,
            },
            Endpoint::Host { path, has_trailing_separator } => EndpointView::Host {
                path: path@,
                has_trailing_separator: *has_trailing_separator,
            },
        }
    }
}

/// What stands behind the mark of the box's side, `box:` or `:`.
pub open spec fn guest_part(raw: Seq<char>) -> Option<Seq<char>> {
    if text::begins_with(raw, "box:"@) {
        Some(raw.skip(4))
    } else if text::begins_with(raw, ":"@) {
        Some(raw.skip(1))
    } else {
        None
    }
}

/// Whether a text begins like a path on a Windows drive.
pub open spec fn on_a_drive(raw: Seq<char>) -> bool {
    raw.len() >= 2 && ('a' <= raw[0] <= 'z' || 'A' <= raw[0] <= 'Z') && raw[1] == ':'
}

/// Whether a text reads `name:/path`, with a name in front.
pub open spec fn names_a_box(raw: Seq<char>) -> bool {
    let colon = text::first_at(raw, ':', 0);
    &&& !on_a_drive(raw)
    &&& 0 < colon < raw.len()
    &&& !raw.take(colon).contains('/')
    &&& !raw.take(colon).contains('\\')
    &&& colon + 1 < raw.len() && raw[colon + 1] == '/'
}

/// The end of a transfer a text names, or why it names none.
pub open spec fn endpoint(raw: Seq<char>, host: HostOs) -> Result<EndpointView, Refusal> {
    match guest_part(raw) {
        Some(rest) => if !(rest.len() > 0 && rest[0] == '/') {
            Err(
                error::refusal(
                    "the box's side of sync is an absolute path, and '"@ + raw
                        + "' is not (use 'box:/path' or ':/path')"@,
                ),
            )
        } else if rest.len() == 1 {
            Ok(EndpointView::Guest { path: rest, has_trailing_separator: true })
        } else if text::without_trailing(rest, '/').len() == 0 {
            Err(
                error::refusal(
                    "guest path is empty after removing trailing separators; use 'box:/' or ':/' for the guest root"@,
                ),
            )
        } else {
            Ok(
                EndpointView::Guest {
                    path: text::without_trailing(rest, '/'),
                    has_trailing_separator: raw.last() == '/',
                },
            )
        },
        None => if names_a_box(raw) {
            let colon = text::first_at(raw, ':', 0);
            Err(
                error::refusal(
                    "'"@ + raw
                        + "' looks like a named box endpoint; terra selects the box on the CLI: terra "@
                        + raw.take(colon) + " sync ... box:"@ + raw.skip(colon + 1),
                ),
            )
        } else {
            Ok(
                EndpointView::Host {
                    path: path::normalized(raw),
                    has_trailing_separator: raw.len() > 0 && (raw.last() == '/' || host
                        == HostOs::Windows && raw.last() == '\\'),
                },
            )
        },
    }
}

fn contains_separator(chars: &Vec<char>, n: usize) -> (found: bool)
    requires
        n <= chars@.len(),
    ensures
        found == (chars@.take(n as int).contains('/') || chars@.take(n as int).contains('\\')),
{
    let mut i: usize = 0;
    while i < n
        invariant
            i <= n <= chars@.len(),
            forall|j: int| 0 <= j < i ==> chars@[j] != '/' && chars@[j] != '\\',
        decreases n - i,
    {
        if chars[i] == '/' || chars[i] == '\\' {
            proof {
                assert(chars@.take(n as int)[i as int] == chars@[i as int]);
            }
            return true;
        }
        i = i + 1;
    }
    false
}

pub fn parse_endpoint(raw: &str, host: HostOs) -> (parsed: Result<Endpoint, Error>)
    ensures
        match parsed {
            Ok(end) => endpoint(raw@, host) == Ok::<_, Refusal>(end@),
            Err(error) => endpoint(raw@, host) == Err::<EndpointView, _>(error@),
        },
{
    let chars = chars_of(raw);
    let n: usize = chars.len();
    proof {
        reveal_strlit("box:");
        reveal_strlit(":");
    }
    let is_box = starts_with(raw, "box:");
    if is_box || starts_with(raw, ":") {
        let rest = text_between(&chars, if is_box { 4 } else { 1 }, n);
        proof {
            assert(rest@ =~= if is_box { raw@.skip(4) } else { raw@.skip(1) });
            assert(guest_part(raw@) == Some(rest@));
        }
        let size: usize = rest.as_str().unicode_len();
        if size == 0 || rest.as_str().get_char(0) != '/' {
            let mut message: String = "the box's side of sync is an absolute path, and '".to_owned();
            message.append(raw);
            message.append("' is not (use 'box:/path' or ':/path')");
            return Err(Error::new(message));
        }
        if size == 1 {
            return Ok(Endpoint::Guest { path: rest, has_trailing_separator: true });
        }
        let path = trim_trailing(rest.as_str(), '/');
        if path.as_str().unicode_len() == 0 {
            return Err(
                refuse(
                    "guest path is empty after removing trailing separators; use 'box:/' or ':/' for the guest root",
                ),
            );
        }
        return Ok(Endpoint::Guest { path, has_trailing_separator: chars[n - 1] == '/' });
    }
    let is_drive = n >= 2 && (('a' <= chars[0] && chars[0] <= 'z') || ('A' <= chars[0] && chars[0]
        <= 'Z')) && chars[1] == ':';
    let colon: usize = find_char(&chars, ':', 0);
    if !is_drive && 0 < colon && colon < n && !contains_separator(&chars, colon) && colon + 1 < n
        && chars[colon + 1] == '/' {
        let name = text_between(&chars, 0, colon);
        let rest = text_between(&chars, colon + 1, n);
        proof {
            assert(name@ =~= raw@.take(colon as int));
            assert(rest@ =~= raw@.skip(colon + 1));
        }
        let mut message: String = "'".to_owned();
        message.append(raw);
        message.append(
            "' looks like a named box endpoint; terra selects the box on the CLI: terra ",
        );
        message.append(name.as_str());
        message.append(" sync ... box:");
        message.append(rest.as_str());
        return Err(Error::new(message));
    }
    let has_trailing_separator = n > 0 && (chars[n - 1] == '/' || (host == HostOs::Windows && chars[n
        - 1] == '\\'));
    Ok(Endpoint::Host { path: normalize(raw), has_trailing_separator })
}

/// The two ends of a transfer and the way it goes, or why there is none: it
/// goes between the host and a box, never within one of them.
pub open spec fn endpoints(src: Seq<char>, dst: Seq<char>, host: HostOs) -> Result<
    (EndpointView, EndpointView, SyncDirection),
    Refusal,
> {
    match (endpoint(src, host), endpoint(dst, host)) {
        (Err(refused), _) => Err(error::refusal("parsing source endpoint"@) + refused),
        (Ok(_), Err(refused)) => Err(error::refusal("parsing destination endpoint"@) + refused),
        (Ok(from), Ok(to)) => match (from, to) {
            (EndpointView::Guest { .. }, EndpointView::Guest { .. }) => Err(
                error::refusal(
                    "sync operates between host and a box; both source and destination cannot be inside the box"@,
                ),
            ),
            (EndpointView::Host { .. }, EndpointView::Host { .. }) => Err(
                error::refusal(
                    "sync operates between host and a box; exactly one of source and destination must be inside the box ('box:/path' or ':/path')"@,
                ),
            ),
            (EndpointView::Host { .. }, EndpointView::Guest { .. }) => Ok(
                (from, to, SyncDirection::HostToGuest),
            ),
            (EndpointView::Guest { .. }, EndpointView::Host { .. }) => Ok(
                (from, to, SyncDirection::GuestToHost),
            ),
        },
    }
}

pub fn parse_endpoints(src: &str, dst: &str, host: HostOs) -> (parsed: Result<
    (Endpoint, Endpoint, SyncDirection),
    Error,
>)
    ensures
        match parsed {
            Ok((from, to, direction)) => endpoints(src@, dst@, host) == Ok::<_, Refusal>(
                (from@, to@, direction),
            ),
            Err(error) => endpoints(src@, dst@, host) == Err::<
                (EndpointView, EndpointView, SyncDirection),
                _,
            >(error@),
        },
{
    let from = match parse_endpoint(src, host) {
        Ok(end) => end,
        Err(error) => {
            return Err(error.context("parsing source endpoint".to_owned()));
        },
    };
    let to = match parse_endpoint(dst, host) {
        Ok(end) => end,
        Err(error) => {
            return Err(error.context("parsing destination endpoint".to_owned()));
        },
    };
    let direction = match (&from, &to) {
        (Endpoint::Guest { .. }, Endpoint::Guest { .. }) => {
            return Err(
                refuse(
                    "sync operates between host and a box; both source and destination cannot be inside the box",
                ),
            );
        },
        (Endpoint::Host { .. }, Endpoint::Host { .. }) => {
            return Err(
                refuse(
                    "sync operates between host and a box; exactly one of source and destination must be inside the box ('box:/path' or ':/path')",
                ),
            );
        },
        (Endpoint::Host { .. }, Endpoint::Guest { .. }) => SyncDirection::HostToGuest,
        (Endpoint::Guest { .. }, Endpoint::Host { .. }) => SyncDirection::GuestToHost,
    };
    Ok((from, to, direction))
}

/// What is copied: the name it has, and how it was written.
#[derive(Debug, Clone, Copy)]
pub struct SourcePlacement<'a> {
    pub name: &'a str,
    pub is_dir: bool,
    pub has_trailing: bool,
}

/// Where it is copied to.
#[derive(Debug, Clone, Copy)]
pub struct DestinationPlacement<'a> {
    pub path: &'a str,
    pub is_existing_dir: bool,
    pub has_trailing: bool,
}

/// The path what is copied ends up at: under its own name where a file goes
/// to a directory, or a directory written without a separator to one that is
/// there; else at the destination itself.
pub open spec fn placement(
    name: Seq<char>,
    is_dir: bool,
    src_trailing: bool,
    path: Seq<char>,
    is_existing_dir: bool,
    dst_trailing: bool,
) -> Seq<char> {
    if (is_dir && !src_trailing && is_existing_dir) || (!is_dir && (is_existing_dir
        || dst_trailing)) {
        text::without_trailing(path, '/') + "/"@ + name
    } else {
        path
    }
}

pub fn resolve_placement<'a>(src: SourcePlacement<'a>, dst: DestinationPlacement<'a>) -> (path: String)
    ensures
        path@ == placement(
            src.name@,
            src.is_dir,
            src.has_trailing,
            dst.path@,
            dst.is_existing_dir,
            dst.has_trailing,
        ),
{
    let goes_inside = if src.is_dir {
        !src.has_trailing && dst.is_existing_dir
    } else {
        dst.is_existing_dir || dst.has_trailing
    };
    if goes_inside {
        let mut path = trim_trailing(dst.path, '/');
        path.append("/");
        path.append(src.name);
        path
    } else {
        dst.path.to_owned()
    }
}

} // verus!
