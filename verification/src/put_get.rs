//! One file into or out of a running box. The guest end is untrusted: every
//! bound here is there because a workload controls what comes back.

pub mod deliver;
pub mod fetch;
pub mod laws;

use crate::cli::CopyArgs;
use crate::error::{self, Error, Refusal, refuse};
use crate::host::{self, HostOs, to_slashes};
use crate::path::{self, file_name_of, join, starts_at_root};
use crate::sync::security;
use crate::text::{self, contains_char, spell};
use vstd::prelude::*;

verus! {

/// The most characters of a guest's error that are shown.
pub const MAX_GUEST_ERROR_MESSAGE: usize = 512;

/// How many bytes are copied at a time.
pub const COPY_CHUNK: usize = 16384;

/// How long a copy may take, in seconds.
pub const COPY_DATA_TIMEOUT_SECS: u64 = 3600;

/// Which way a file goes.
#[derive(Debug, Clone, Copy, PartialEq, Eq, Structural)]
pub enum Direction {
    IntoBox,
    OutOfBox,
}

impl Direction {
    pub fn as_cli_verb(self) -> (verb: &'static str)
        ensures
            verb@ == (match self {
                Direction::IntoBox => "put"@,
                Direction::OutOfBox => "get"@,
            }),
    {
        match self {
            Direction::IntoBox => "put",
            Direction::OutOfBox => "get",
        }
    }
}

/// The host's side and the box's side of a copy.
pub open spec fn sides(args: CopyArgs, direction: Direction) -> (Seq<char>, Seq<char>) {
    match direction {
        Direction::IntoBox => (args.src@, args.dst@),
        Direction::OutOfBox => (args.dst@, args.src@),
    }
}

/// The host's side and the box's side of a copy; the box's is an absolute
/// path, as there is no directory in the box for another to lean on.
pub fn resolve_host_guest_paths<'a>(args: &'a CopyArgs, direction: Direction) -> (paths: Result<
    (&'a str, &'a str),
    Error,
>)
    ensures
        ({
            let (host, guest) = sides(*args, direction);
            match paths {
                Ok((host_side, guest_side)) => path::is_absolute(guest) && host_side@ == host
                    && guest_side@ == guest,
                Err(error) => !path::is_absolute(guest) && error@ == error::refusal(
                    "the box's side of a copy is an absolute path, and '"@ + guest
                        + "' is not (`terra <box> "@ + (match direction {
                        Direction::IntoBox => "put ./local.txt /tmp/remote.txt"@,
                        Direction::OutOfBox => "get /etc/os-release ./os-release"@,
                    }) + "`)"@,
                ),
            }
        }),
{
    let (host, guest): (&'a str, &'a str) = match direction {
        Direction::IntoBox => (args.src.as_str(), args.dst.as_str()),
        Direction::OutOfBox => (args.dst.as_str(), args.src.as_str()),
    };
    if starts_at_root(guest) {
        return Ok((host, guest));
    }
    let mut message: String = "the box's side of a copy is an absolute path, and '".to_owned();
    message.append(guest);
    message.append("' is not (`terra <box> ");
    match direction {
        Direction::IntoBox => {
            message.append("put ./local.txt /tmp/remote.txt");
        },
        Direction::OutOfBox => {
            message.append("get /etc/os-release ./os-release");
        },
    }
    message.append("`)");
    Err(Error::new(message))
}

/// A guest's error as it is shown: nothing in it drives the terminal, and it
/// is cut where it goes on for too long.
pub fn sanitize_guest_error_message(err: &str) -> (shown: String)
    ensures
        shown@ == security::sanitized(err@, MAX_GUEST_ERROR_MESSAGE as int),
        crate::render::harmless(shown@),
{
    crate::sync::security::sanitize_guest_error_message(err, MAX_GUEST_ERROR_MESSAGE)
}

/// What the agent of a box answers.
#[derive(Debug)]
pub enum FileReply {
    Put,
    Get { mode: u32, size: u64 },
    Refused(String),
}

/// What came of reading an answer.
#[derive(Debug)]
pub enum ReplyRead {
    Failed(String),
    Closed,
    Reply(FileReply),
}

/// What is wrong with an answer, if anything is.
pub open spec fn reply_trouble(read: ReplyRead) -> Option<Refusal> {
    match read {
        ReplyRead::Failed(why) => Some(error::refusal("reading the agent's reply"@) + error::refusal(why@)),
        ReplyRead::Closed => Some(error::refusal("agent closed connection without replying"@)),
        ReplyRead::Reply(FileReply::Refused(err)) => Some(
            error::refusal("guest: "@ + security::sanitized(err@, MAX_GUEST_ERROR_MESSAGE as int)),
        ),
        ReplyRead::Reply(_) => None,
    }
}

fn read_reply(read: ReplyRead) -> (reply: Result<FileReply, Error>)
    ensures
        match reply {
            Ok(reply) => reply_trouble(read) is None && read == ReplyRead::Reply(reply) && !(
            reply is Refused),
            Err(error) => reply_trouble(read) == Some(error@),
        },
{
    match read {
        ReplyRead::Failed(why) => Err(
            Error::new(why).context("reading the agent's reply".to_owned()),
        ),
        ReplyRead::Closed => Err(refuse("agent closed connection without replying")),
        ReplyRead::Reply(FileReply::Refused(err)) => {
            let mut message: String = "guest: ".to_owned();
            message.append(sanitize_guest_error_message(err.as_str()).as_str());
            Err(Error::new(message))
        },
        ReplyRead::Reply(reply) => Ok(reply),
    }
}

/// What is held against a file that is to be sent: that it is a directory, or
/// too large.
pub open spec fn put_source_verdict(
    host_path: Seq<char>,
    is_dir: bool,
    size: u64,
    max_file_bytes: u64,
) -> Result<(), Refusal> {
    if is_dir {
        Err(
            error::refusal(
                host_path
                    + " is a directory - a copy carries single files (use a mount, or tar through the shell)"@,
            ),
        )
    } else if size > max_file_bytes {
        Err(
            error::refusal(
                host_path + " is "@ + text::decimal(size as nat) + " bytes, past the "@ + text::decimal(
                    (max_file_bytes / 0x4000_0000) as nat,
                ) + " GiB copy ceiling"@,
            ),
        )
    } else {
        Ok(())
    }
}

/// Refuses what cannot be sent: a directory, and a file that is too large.
pub fn check_put_source(host_path: &str, is_dir: bool, size: u64, max_file_bytes: u64) -> (
    checked: Result<(), Error>)
    ensures
        error::outcome(checked) == put_source_verdict(host_path@, is_dir, size, max_file_bytes),
{
    if is_dir {
        let mut message: String = host_path.to_owned();
        message.append(
            " is a directory - a copy carries single files (use a mount, or tar through the shell)",
        );
        return Err(Error::new(message));
    }
    if size > max_file_bytes {
        let mut message: String = host_path.to_owned();
        message.append(" is ");
        message.append(spell(size).as_str());
        message.append(" bytes, past the ");
        message.append(spell(max_file_bytes / 0x4000_0000).as_str());
        message.append(" GiB copy ceiling");
        return Err(Error::new(message));
    }
    Ok(())
}

/// Whether a file that was sent has arrived: the agent said so, and all of it
/// was there to send.
pub open spec fn put_verdict(host_path: Seq<char>, read: ReplyRead, sent: u64, size: u64) -> Result<
    (),
    Refusal,
> {
    match reply_trouble(read) {
        Some(refused) => Err(refused),
        None => if !(read->Reply_0 is Put) {
            Err(error::refusal("the agent answered a put request with another kind of reply"@))
        } else if sent != size {
            Err(
                error::refusal(
                    host_path + " shrank while it was being copied ("@ + text::decimal(sent as nat)
                        + " of "@ + text::decimal(size as nat)
                        + " bytes); the guest copy was padded to the promised length - copy it again"@,
                ),
            )
        } else {
            Ok(())
        },
    }
}

pub fn check_put(host_path: &str, read: ReplyRead, sent: u64, size: u64) -> (checked: Result<(), Error>)
    ensures
        error::outcome(checked) == put_verdict(host_path@, read, sent, size),
{
    match read_reply(read) {
        Err(error) => {
            return Err(error);
        },
        Ok(FileReply::Put) => {},
        Ok(_) => {
            return Err(refuse("the agent answered a put request with another kind of reply"));
        },
    }
    if sent == size {
        return Ok(());
    }
    let mut message: String = host_path.to_owned();
    message.append(" shrank while it was being copied (");
    message.append(spell(sent).as_str());
    message.append(" of ");
    message.append(spell(size).as_str());
    message.append(
        " bytes); the guest copy was padded to the promised length - copy it again",
    );
    Err(Error::new(message))
}

/// What the agent promised of a file that was asked for: its mode and size,
/// or why it is not taken.
pub open spec fn promised(guest_path: Seq<char>, read: ReplyRead, max_file_bytes: u64) -> Result<
    (u32, u64),
    Refusal,
> {
    match reply_trouble(read) {
        Some(refused) => Err(refused),
        None => match read->Reply_0 {
            FileReply::Get { mode, size } => if size > max_file_bytes {
                Err(
                    error::refusal(
                        guest_path + " says it is "@ + text::decimal(size as nat)
                            + " bytes, past the "@ + text::decimal(
                            (max_file_bytes / 0x4000_0000) as nat,
                        )
                            + " GiB copy ceiling (share a directory instead - a copy is for single files)"@,
                    ),
                )
            } else {
                Ok((mode, size))
            },
            _ => Err(error::refusal("the agent answered a get request with another kind of reply"@)),
        },
    }
}

pub fn check_get(guest_path: &str, read: ReplyRead, max_file_bytes: u64) -> (promised: Result<
    (u32, u64),
    Error,
>)
    ensures
        error::outcome(promised) == self::promised(guest_path@, read, max_file_bytes),
{
    let (mode, size): (u32, u64) = match read_reply(read) {
        Err(error) => {
            return Err(error);
        },
        Ok(FileReply::Get { mode, size }) => (mode, size),
        Ok(_) => {
            return Err(refuse("the agent answered a get request with another kind of reply"));
        },
    };
    if size > max_file_bytes {
        let mut message: String = guest_path.to_owned();
        message.append(" says it is ");
        message.append(spell(size).as_str());
        message.append(" bytes, past the ");
        message.append(spell(max_file_bytes / 0x4000_0000).as_str());
        message.append(
            " GiB copy ceiling (share a directory instead - a copy is for single files)",
        );
        return Err(Error::new(message));
    }
    Ok((mode, size))
}

/// The name a guest's file has on a host, or why it can have none there.
pub open spec fn guest_file_name(guest_path: Seq<char>, host: HostOs) -> Result<Seq<char>, Refusal> {
    let found = path::file_name(host::with_slashes(guest_path, host));
    match found {
        None => Err(error::refusal("guest path has no file name"@)),
        Some(name) => if host == HostOs::Windows && name.contains(':') {
            Err(
                error::refusal(
                    "guest file name is invalid on Windows; choose an explicit destination file name"@,
                ),
            )
        } else {
            Ok(name)
        },
    }
}

pub fn extract_guest_file_name(guest_path: &str, host: HostOs) -> (name: Result<String, Error>)
    ensures
        match name {
            Ok(name) => guest_file_name(guest_path@, host) == Ok::<_, Refusal>(name@),
            Err(error) => guest_file_name(guest_path@, host) == Err::<Seq<char>, _>(error@),
        },
{
    let found = file_name_of(to_slashes(guest_path, host).as_str());
    let name = match found {
        Some(name) => name,
        None => {
            return Err(refuse("guest path has no file name"));
        },
    };
    if host == HostOs::Windows && contains_char(name.as_str(), ':') {
        return Err(
            refuse(
                "guest file name is invalid on Windows; choose an explicit destination file name",
            ),
        );
    }
    Ok(name)
}

/// Where a file that is fetched goes: a directory keeps the file's own name.
pub open spec fn destination_of(
    host_path: Seq<char>,
    is_dir: bool,
    guest_path: Seq<char>,
    host: HostOs,
) -> Result<Seq<char>, Refusal> {
    if is_dir {
        match guest_file_name(guest_path, host) {
            Ok(name) => Ok(path::placed(host_path, name)),
            Err(refused) => Err(refused),
        }
    } else {
        Ok(host_path)
    }
}

pub fn choose_destination(host_path: &str, is_dir: bool, guest_path: &str, host: HostOs) -> (
    destination: Result<String, Error>)
    ensures
        match destination {
            Ok(path) => destination_of(host_path@, is_dir, guest_path@, host) == Ok::<_, Refusal>(
                path@,
            ),
            Err(error) => destination_of(host_path@, is_dir, guest_path@, host) == Err::<
                Seq<char>,
                _,
            >(error@),
        },
{
    if !is_dir {
        return Ok(host_path.to_owned());
    }
    match extract_guest_file_name(guest_path, host) {
        Ok(name) => Ok(join(host_path, name.as_str())),
        Err(error) => Err(error),
    }
}

/// What lies where a fetched file goes.
#[derive(Debug)]
pub enum DestinationFacts {
    /// Something is there; a file with its links followed, or why they could
    /// not be.
    There { is_file: bool, followed: Result<String, String> },
    /// Nothing is there, not even a link.
    Missing,
    /// A link that leads nowhere.
    DanglingLink,
    Unreadable(String),
}

/// Where a fetched file is written, or why it is not.
pub open spec fn write_path(destination: Seq<char>, facts: DestinationFacts) -> Result<
    Seq<char>,
    Refusal,
> {
    match facts {
        DestinationFacts::There { is_file, followed } => if !is_file {
            Err(error::refusal("creating "@ + destination + ": expected a regular file"@))
        } else {
            match followed {
                Ok(path) => Ok(path@),
                Err(why) => Err(error::refusal("resolving "@ + destination) + error::refusal(why@)),
            }
        },
        DestinationFacts::Missing => Ok(destination),
        DestinationFacts::DanglingLink => Err(
            error::refusal("creating "@ + destination + ": destination is a dangling symlink"@),
        ),
        DestinationFacts::Unreadable(why) => Err(
            error::refusal("reading "@ + destination) + error::refusal(why@),
        ),
    }
}

pub fn check_destination(destination: &str, facts: DestinationFacts) -> (path: Result<String, Error>)
    ensures
        match path {
            Ok(path) => write_path(destination@, facts) == Ok::<_, Refusal>(path@),
            Err(error) => write_path(destination@, facts) == Err::<Seq<char>, _>(error@),
        },
{
    match facts {
        DestinationFacts::There { is_file, followed } => {
            if !is_file {
                let mut message: String = "creating ".to_owned();
                message.append(destination);
                message.append(": expected a regular file");
                return Err(Error::new(message));
            }
            match followed {
                Ok(path) => Ok(path),
                Err(why) => {
                    let mut message: String = "resolving ".to_owned();
                    message.append(destination);
                    Err(Error::new(why).context(message))
                },
            }
        },
        DestinationFacts::Missing => Ok(destination.to_owned()),
        DestinationFacts::DanglingLink => {
            let mut message: String = "creating ".to_owned();
            message.append(destination);
            message.append(": destination is a dangling symlink");
            Err(Error::new(message))
        },
        DestinationFacts::Unreadable(why) => {
            let mut message: String = "reading ".to_owned();
            message.append(destination);
            Err(Error::new(why).context(message))
        },
    }
}

/// What is held against a fetched file that did not come whole.
pub open spec fn received_verdict(guest_path: Seq<char>, received: nat, size: nat) -> Result<
    (),
    Refusal,
> {
    if received == size {
        Ok(())
    } else {
        Err(
            error::refusal(
                guest_path + " ended after "@ + text::decimal(received) + " of "@ + text::decimal(
                    size,
                ) + " promised bytes; copy it again"@,
            ),
        )
    }
}

pub fn check_received(guest_path: &str, received: u64, size: u64) -> (checked: Result<(), Error>)
    ensures
        error::outcome(checked) == received_verdict(guest_path@, received as nat, size as nat),
{
    if received == size {
        return Ok(());
    }
    let mut message: String = guest_path.to_owned();
    message.append(" ended after ");
    message.append(spell(received).as_str());
    message.append(" of ");
    message.append(spell(size).as_str());
    message.append(" promised bytes; copy it again");
    Err(Error::new(message))
}

/// What is said of a file that was copied.
pub open spec fn copied_line(from: Seq<char>, to: Seq<char>, bytes: nat) -> Seq<char> {
    "terra: copied "@ + from + " -> "@ + to + " ("@ + text::decimal(bytes) + " bytes)"@
}

pub fn report(from: &str, to: &str, bytes: u64) -> (line: String)
    ensures
        line@ == copied_line(from@, to@, bytes as nat),
{
    let mut line: String = "terra: copied ".to_owned();
    line.append(from);
    line.append(" -> ");
    line.append(to);
    line.append(" (");
    line.append(spell(bytes).as_str());
    line.append(" bytes)");
    line
}

/// A copy of at most so many bytes: how many have passed, and whether the
/// source has ended.
#[derive(Debug)]
pub struct BoundedCopy {
    size: u64,
    sent: u64,
    ended: bool,
}

#[verifier::ext_equal]
pub struct CopyView {
    pub size: nat,
    pub sent: nat,
    pub ended: bool,
}

impl View for BoundedCopy {
    type V = CopyView;

    closed spec fn view(&self) -> CopyView {
        CopyView { size: self.size as nat, sent: self.sent as nat, ended: self.ended }
    }
}

/// What is said of a copy that has run out of time.
pub open spec fn out_of_time(what: Seq<char>) -> Refusal {
    error::refusal(
        what + " ran past its "@ + text::decimal(COPY_DATA_TIMEOUT_SECS as nat)
            + "s data transfer limit - the other end kept the transfer open without finishing it"@,
    )
}

fn refuse_late(what: &str) -> (error: Error)
    ensures
        error@ == out_of_time(what@),
{
    let mut message: String = what.to_owned();
    message.append(" ran past its ");
    message.append(spell(COPY_DATA_TIMEOUT_SECS).as_str());
    message.append(
        "s data transfer limit - the other end kept the transfer open without finishing it",
    );
    Error::new(message)
}

/// How many bytes a copy that is not through reads next.
pub open spec fn next_chunk(m: CopyView) -> nat {
    if m.size - m.sent < COPY_CHUNK {
        (m.size - m.sent) as nat
    } else {
        COPY_CHUNK as nat
    }
}

/// What a copy does next: how many bytes it reads, or that it is through; one
/// that has run out of time is refused.
pub open spec fn copy_step(m: CopyView, expired: bool, what: Seq<char>) -> Result<
    Option<nat>,
    Refusal,
> {
    if m.sent == m.size || m.ended {
        Ok(None)
    } else if expired {
        Err(out_of_time(what))
    } else {
        Ok(Some(next_chunk(m)))
    }
}

impl BoundedCopy {
    #[verifier::type_invariant]
    spec fn within(self) -> bool {
        self.sent <= self.size
    }

    pub fn new(size: u64) -> (copy: BoundedCopy)
        ensures
            copy@ == (CopyView { size: size as nat, sent: 0, ended: false }),
    {
        BoundedCopy { size, sent: 0, ended: false }
    }

    pub fn next(&self, expired: bool, what: &str) -> (step: Result<Option<usize>, Error>)
        ensures
            match step {
                Ok(None) => copy_step(self@, expired, what@) == Ok::<Option<nat>, Refusal>(None),
                Ok(Some(n)) => copy_step(self@, expired, what@) == Ok::<_, Refusal>(Some(n as nat)),
                Err(error) => copy_step(self@, expired, what@) == Err::<Option<nat>, _>(error@),
            },
    {
        proof {
            use_type_invariant(self);
        }
        if self.sent == self.size || self.ended {
            return Ok(None);
        }
        if expired {
            return Err(refuse_late(what));
        }
        Ok(Some(self.wanted()))
    }

    /// How many bytes are read next, while the copy is on.
    pub fn wanted(&self) -> (n: usize)
        ensures
            n == next_chunk(self@),
    {
        proof {
            use_type_invariant(self);
        }
        let left: u64 = self.size - self.sent;
        if left < COPY_CHUNK as u64 {
            left as usize
        } else {
            COPY_CHUNK
        }
    }

    pub fn size(&self) -> (n: u64)
        ensures
            n == self@.size,
    {
        self.size
    }

    pub fn has_ended(&self) -> (yes: bool)
        ensures
            yes == self@.ended,
    {
        self.ended
    }

    /// Counts the bytes a read brought; none is the end of the source.
    pub fn took(&mut self, n: usize)
        requires
            n <= old(self)@.size - old(self)@.sent,
        ensures
            final(self)@ == (CopyView {
                size: old(self)@.size,
                sent: old(self)@.sent + n as nat,
                ended: old(self)@.ended || n == 0,
            }),
    {
        self.sent = self.sent + n as u64;
        self.ended = self.ended || n == 0;
    }

    pub fn sent(&self) -> (n: u64)
        ensures
            n == self@.sent,
            n <= self@.size,
    {
        proof {
            use_type_invariant(self);
        }
        self.sent
    }

    /// How many zeros make up for a source that ended too soon, so that the
    /// promised length still goes out.
    pub fn padding(&self) -> (n: u64)
        ensures
            n == self@.size - self@.sent,
    {
        proof {
            use_type_invariant(self);
        }
        self.size - self.sent
    }
}

/// A copy never asks for more than is left of what was promised, and reads on
/// until that is there or the source ends.
pub proof fn copies_keep_to_their_promise(m: CopyView, expired: bool, what: Seq<char>)
    requires
        m.sent <= m.size,
    ensures
        match copy_step(m, expired, what) {
            Ok(None) => m.sent == m.size || m.ended,
            Ok(Some(n)) => 0 < n && m.sent + n <= m.size,
            Err(_) => expired && m.sent < m.size,
        },
{
}

} // verus!
