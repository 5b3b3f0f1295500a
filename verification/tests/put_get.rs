//! One file into or out of a running box.

use terra::cli::{AgentTimeoutArg, CopyArgs};
use terra::host::HostOs;
use terra::put_get::deliver::{DeliverEvent, DeliverStep, Delivery};
use terra::put_get::fetch::{Fetch, FetchEvent, FetchStep};
use terra::put_get::{
    BoundedCopy, DestinationFacts, Direction, FileReply, MAX_GUEST_ERROR_MESSAGE, ReplyRead,
    check_destination, check_get, check_put, check_put_source, choose_destination,
    extract_guest_file_name, report, resolve_host_guest_paths, sanitize_guest_error_message,
};
use terra::sync::security::{to_guest_mode, to_safe_mode};

const MAX_FILE_BYTES: u64 = 4 << 30;

fn args(src: &str, dst: &str) -> CopyArgs {
    CopyArgs {
        src: src.to_string(),
        dst: dst.to_string(),
        agent: AgentTimeoutArg { agent_timeout: None },
    }
}

/// Copies as a caller does: reads at most what it is told to from `from`.
fn copy_at_most(from: &[u8], size: u64, expired: bool) -> Result<(Vec<u8>, BoundedCopy), String> {
    let mut copy = BoundedCopy::new(size);
    let mut wire = Vec::new();
    let mut at = 0;
    while let Some(want) = copy
        .next(expired, "receiving the file")
        .map_err(|error| error.message())?
    {
        let n = want.min(from.len() - at);
        wire.extend_from_slice(&from[at..at + n]);
        at += n;
        copy.took(n);
    }
    Ok((wire, copy))
}

fn send_body_padded_to_size(from: &[u8], size: u64) -> (u64, Vec<u8>) {
    let (mut wire, copy) = copy_at_most(from, size, false).unwrap();
    wire.resize(wire.len() + usize::try_from(copy.padding()).unwrap(), 0);
    (copy.sent(), wire)
}

#[test]
fn the_verb_decides_which_side_is_the_box_s() {
    assert_eq!(
        resolve_host_guest_paths(&args("./a.txt", "/tmp/a.txt"), Direction::IntoBox).unwrap(),
        ("./a.txt", "/tmp/a.txt")
    );
    assert_eq!(
        resolve_host_guest_paths(&args("/etc/os-release", "."), Direction::OutOfBox).unwrap(),
        (".", "/etc/os-release")
    );
    for host in ["./odd@name", "box:/legacy", "user@host", "-"] {
        assert_eq!(
            resolve_host_guest_paths(&args(host, "/tmp/x"), Direction::IntoBox).unwrap(),
            (host, "/tmp/x"),
            "{host}"
        );
    }
    assert_eq!(Direction::IntoBox.as_cli_verb(), "put");
    assert_eq!(Direction::OutOfBox.as_cli_verb(), "get");
}

#[test]
fn a_relative_guest_path_is_refused_on_whichever_side_it_is_on() {
    let err = resolve_host_guest_paths(&args("./a.txt", "tmp/a.txt"), Direction::IntoBox)
        .unwrap_err()
        .message();
    assert!(err.contains("absolute path"), "{err}");
    assert!(err.contains("put ./local.txt"), "the spelling: {err}");

    let err = resolve_host_guest_paths(&args("etc/os-release", "."), Direction::OutOfBox)
        .unwrap_err()
        .message();
    assert!(err.contains("absolute path"), "{err}");
    assert!(err.contains("get /etc/os-release"), "the spelling: {err}");

    assert!(resolve_host_guest_paths(&args("./a.txt", "/tmp/a.txt"), Direction::IntoBox).is_ok());
    assert!(resolve_host_guest_paths(&args("/tmp/a.txt", "./a.txt"), Direction::OutOfBox).is_ok());
}

#[test]
fn a_guest_error_cannot_drive_the_host_terminal() {
    let plain = "No such file or directory (os error 2)";
    assert_eq!(sanitize_guest_error_message(plain), plain);

    for raw in ["\x1b]0;pwned\x07", "\x1b[2J\x1b[H", "a\rterra: copied ok"] {
        let out = sanitize_guest_error_message(raw);
        assert!(!out.contains('\x1b'), "{out:?} still carries ESC");
        assert!(!out.contains('\r'), "{out:?} still carries CR");
        assert!(!out.contains('\x07'), "{out:?} still carries BEL");
    }

    let flood = "x".repeat(MAX_GUEST_ERROR_MESSAGE * 4);
    let out = sanitize_guest_error_message(&flood);
    assert_eq!(out.chars().count(), MAX_GUEST_ERROR_MESSAGE + 1);
    assert!(out.ends_with('…'));
    let exact = "y".repeat(MAX_GUEST_ERROR_MESSAGE);
    assert_eq!(sanitize_guest_error_message(&exact), exact);
}

#[test]
fn a_guest_cannot_hand_out_setuid_or_group_write_on_the_host() {
    assert_eq!(to_safe_mode(0o755), 0o755);
    assert_eq!(to_safe_mode(0o600), 0o600);
    assert_eq!(to_safe_mode(0o4755), 0o755);
    assert_eq!(to_safe_mode(0o2755), 0o755);
    assert_eq!(to_safe_mode(0o1777), 0o755);
    assert_eq!(to_safe_mode(0o666), 0o644);
    assert_eq!(to_safe_mode(u32::MAX), 0o755);
    assert_eq!(to_guest_mode(HostOs::Linux, 0o104_755, false, false), 0o755);
}

#[test]
fn a_windows_special_guest_basename_is_refused() {
    assert!(extract_guest_file_name("/tmp/C:notes", HostOs::Windows).is_err());
    assert!(extract_guest_file_name("/tmp/notes:stream", HostOs::Windows).is_err());
    assert_eq!(extract_guest_file_name("/tmp/notes:stream", HostOs::Linux).unwrap(), "notes:stream");
    assert_eq!(extract_guest_file_name("/tmp/dir\\notes", HostOs::Windows).unwrap(), "notes");
    assert_eq!(
        extract_guest_file_name("/", HostOs::Linux).unwrap_err().message(),
        "guest path has no file name"
    );
}

/// Fetches as a caller does, from a box that answers with a length and sends
/// some bytes, onto a disk of one file; with the result, what was asked for.
fn fetch(
    reply: ReplyRead,
    body: &[u8],
    path: &str,
    disk: &mut Option<Vec<u8>>,
) -> (Result<String, String>, Vec<&'static str>) {
    let mut fetch = Fetch::start("/data/out.bin", path, HostOs::Linux, MAX_FILE_BYTES);
    let mut reply = Some(reply);
    let mut staged: Option<Vec<u8>> = None;
    let mut at = 0;
    let mut asked = Vec::new();
    loop {
        let (name, event) = match fetch.next() {
            FetchStep::Ask => ("ask", FetchEvent::Replied(reply.take().unwrap())),
            FetchStep::LookAt(_) => ("look", FetchEvent::IsDir(false)),
            FetchStep::Examine(found) => {
                assert_eq!(found, path);
                let facts = match disk {
                    Some(_) => DestinationFacts::There { is_file: true, followed: Ok(found) },
                    None => DestinationFacts::Missing,
                };
                ("examine", FetchEvent::Found(facts))
            }
            FetchStep::Stage(_) => {
                staged = Some(Vec::new());
                ("stage", FetchEvent::Done)
            }
            FetchStep::Receive(most) => {
                let n = most.min(3).min(body.len() - at);
                at += n;
                ("receive", FetchEvent::Received(body[at - n..at].to_vec()))
            }
            FetchStep::Append(bytes) => {
                staged.as_mut().unwrap().extend(bytes);
                ("append", FetchEvent::Done)
            }
            FetchStep::Resize(len) => {
                staged.as_mut().unwrap().resize(usize::try_from(len).unwrap(), 0);
                ("resize", FetchEvent::Done)
            }
            FetchStep::SetMode(mode) => {
                assert_eq!(mode, 0o644);
                ("mode", FetchEvent::Done)
            }
            FetchStep::Install(to) => {
                assert_eq!(to, path);
                *disk = staged.take();
                ("install", FetchEvent::Done)
            }
            FetchStep::Discard => {
                staged = None;
                ("discard", FetchEvent::Done)
            }
            FetchStep::Nothing => break,
        };
        asked.push(name);
        fetch = fetch.advance(event);
    }
    assert!(staged.is_none(), "nothing is left beside the destination");
    (fetch.into_result().unwrap().map_err(|error| error.full_message()), asked)
}

#[test]
fn a_fetch_file_from_box_cut_short_is_an_error_not_a_success() {
    let reply = || ReplyRead::Reply(FileReply::Get { mode: 0o644, size: 8 });
    let mut disk = Some(b"kept".to_vec());
    let (result, asked) = fetch(reply(), b"1234", "/tmp/out.bin", &mut disk);
    let err = result.unwrap_err();
    assert!(err.contains("4 of 8"), "{err}");
    assert_eq!(disk.as_deref(), Some(b"kept".as_slice()));
    assert!(!asked.contains(&"install"));

    let (result, _) = fetch(reply(), b"12345678", "/tmp/out.bin", &mut disk);
    assert_eq!(
        result.unwrap(),
        "terra: copied /data/out.bin -> /tmp/out.bin (8 bytes)"
    );
    assert_eq!(disk.as_deref(), Some(b"12345678".as_slice()));

    let mut disk = None;
    assert!(fetch(reply(), b"12345678", "/tmp/out.bin", &mut disk).0.is_ok());
    assert_eq!(disk.as_deref(), Some(b"12345678".as_slice()));
}

#[test]
fn oversized_file_reply_is_rejected_before_reading_its_body() {
    let oversized = || ReplyRead::Failed("frame exceeds its limit".to_string());
    let mut disk = Some(b"kept".to_vec());
    let (result, asked) = fetch(oversized(), b"12345678", "/tmp/out.bin", &mut disk);
    assert_eq!(result.unwrap_err(), "reading the agent's reply: frame exceeds its limit");
    assert_eq!(asked, ["ask"]);
    assert_eq!(disk.as_deref(), Some(b"kept".as_slice()));
    assert!(check_get("/data/out.bin", oversized(), MAX_FILE_BYTES).is_err());
    let promised = ReplyRead::Reply(FileReply::Get { mode: 0o644, size: MAX_FILE_BYTES + 1 });
    let (result, asked) = fetch(promised, b"12345678", "/tmp/out.bin", &mut disk);
    assert!(result.is_err());
    assert_eq!(asked, ["ask"]);
}

#[test]
fn a_get_follows_symlink_destination_or_parent() {
    assert_eq!(
        check_destination(
            "/out/destination",
            DestinationFacts::There { is_file: true, followed: Ok("/out/redirected".to_string()) },
        )
        .unwrap(),
        "/out/redirected"
    );
    assert_eq!(
        check_destination("/linked/out", DestinationFacts::Missing).unwrap(),
        "/linked/out"
    );
}

#[test]
fn a_get_refuses_a_nonregular_destination() {
    let error = check_destination(
        "/out/fifo",
        DestinationFacts::There { is_file: false, followed: Ok("/out/fifo".to_string()) },
    )
    .unwrap_err()
    .message();
    assert!(error.contains("regular file"), "{error}");
    let error = check_destination("/out/link", DestinationFacts::DanglingLink).unwrap_err();
    assert!(error.message().contains("dangling symlink"));
    let error = check_destination("/out/x", DestinationFacts::Unreadable("denied".to_string()))
        .unwrap_err();
    assert_eq!(error.full_message(), "reading /out/x: denied");
    let error = check_destination(
        "/out/x",
        DestinationFacts::There { is_file: true, followed: Err("loop".to_string()) },
    )
    .unwrap_err();
    assert_eq!(error.full_message(), "resolving /out/x: loop");
}

#[test]
fn a_fetched_file_keeps_its_name_in_a_directory() {
    let host = HostOs::Linux;
    assert_eq!(choose_destination(".", true, "/etc/hosts", host).unwrap(), "./hosts");
    assert_eq!(choose_destination("out", false, "/etc/hosts", host).unwrap(), "out");
    assert!(choose_destination(".", true, "/", host).is_err());
}

/// Delivers as a caller does a file that was measured at a size and holds some
/// bytes; with the result, what the box was sent.
fn deliver(size: u64, body: &[u8], reply: FileReply) -> (Result<String, String>, Vec<u8>) {
    let mut delivery = Delivery::start("a.txt", "/tmp/a", HostOs::Linux, MAX_FILE_BYTES);
    let mut reply = Some(reply);
    let mut wire = Vec::new();
    let mut at = 0;
    loop {
        let event = match delivery.next() {
            DeliverStep::Open(path) => {
                assert_eq!(path, "a.txt");
                DeliverEvent::Done
            }
            DeliverStep::Measure => {
                DeliverEvent::Measured { is_dir: false, size, mode: 0o100_640, readonly: false }
            }
            DeliverStep::Request { path, mode, size: promised } => {
                assert_eq!((path.as_str(), mode, promised), ("/tmp/a", 0o640, size));
                DeliverEvent::Done
            }
            DeliverStep::Read(most) => {
                let n = most.min(3).min(body.len() - at);
                at += n;
                DeliverEvent::Chunk(body[at - n..at].to_vec())
            }
            DeliverStep::Send(bytes) => {
                wire.extend(bytes);
                DeliverEvent::Done
            }
            DeliverStep::AwaitReply => {
                DeliverEvent::Replied(ReplyRead::Reply(reply.take().unwrap()))
            }
            DeliverStep::Nothing => break,
        };
        delivery = delivery.advance(event);
    }
    (delivery.into_result().unwrap().map_err(|error| error.full_message()), wire)
}

#[test]
fn a_delivery_sends_what_it_promised() {
    let (result, wire) = deliver(8, b"12345678and more", FileReply::Put);
    assert_eq!(result.unwrap(), "terra: copied a.txt -> /tmp/a (8 bytes)");
    assert_eq!(wire, b"12345678");
    let (result, wire) = deliver(8, b"1234", FileReply::Put);
    assert_eq!(wire, b"1234\0\0\0\0");
    assert!(result.unwrap_err().contains("shrank while it was being copied (4 of 8 bytes)"));
    let (result, wire) = deliver(40_000, b"1", FileReply::Put);
    assert_eq!(wire.len(), 40_000);
    assert!(result.is_err());
    let (result, wire) = deliver(0, b"", FileReply::Put);
    assert!(result.is_ok() && wire.is_empty());
    let (result, _) = deliver(2, b"ab", FileReply::Refused("no space".to_string()));
    assert_eq!(result.unwrap_err(), "guest: no space");
    let (result, wire) = deliver(MAX_FILE_BYTES + 1, b"", FileReply::Put);
    assert!(result.unwrap_err().contains("past the 4 GiB copy ceiling"));
    assert!(wire.is_empty());

    let asked = || {
        Delivery::start("a.txt", "/tmp/a", HostOs::Linux, MAX_FILE_BYTES)
            .advance(DeliverEvent::Done)
            .advance(DeliverEvent::Measured { is_dir: false, size: 8, mode: 0, readonly: false })
            .advance(DeliverEvent::Done)
    };
    let said = |delivery: Delivery| delivery.into_result().unwrap().unwrap_err().full_message();
    assert!(said(asked().advance(DeliverEvent::Late)).starts_with("sending the file ran past"));
    let padding = || asked().advance(DeliverEvent::Chunk(Vec::new()));
    assert!(
        said(padding().advance(DeliverEvent::Late))
            .starts_with("completing a short transfer ran past")
    );
}

#[test]
fn a_file_that_shrank_after_being_measured_is_padded_out_to_the_promised_length() {
    let (sent, wire) = send_body_padded_to_size(b"1234", 8);
    assert_eq!(sent, 4, "the count is what was really read");
    assert_eq!(wire, b"1234\0\0\0\0", "the promised length still went out");

    let (sent, whole) = send_body_padded_to_size(b"12345678", 8);
    assert_eq!((sent, whole.as_slice()), (8, b"12345678".as_slice()));

    let (sent, bounded) = send_body_padded_to_size(b"12345678and more", 8);
    assert_eq!((sent, bounded.as_slice()), (8, b"12345678".as_slice()));
}

#[test]
fn a_transfer_past_its_data_deadline_fails_rather_than_trickling_forever() {
    let err = copy_at_most(&[1; 100], 100, true).unwrap_err();
    assert!(err.contains("data transfer limit"), "{err}");
    assert!(err.contains("3600s"), "{err}");
}

#[test]
fn a_large_copy_goes_in_chunks() {
    let copy = BoundedCopy::new(40_000);
    assert_eq!(copy.next(false, "copying").unwrap(), Some(16_384));
    let mut copy = BoundedCopy::new(20_000);
    copy.took(16_384);
    assert_eq!(copy.next(false, "copying").unwrap(), Some(3_616));
    assert_eq!(copy.padding(), 3_616);
}

#[test]
fn only_files_within_the_ceiling_are_sent() {
    assert!(check_put_source("a", false, MAX_FILE_BYTES, MAX_FILE_BYTES).is_ok());
    let err = check_put_source("a", false, MAX_FILE_BYTES + 1, MAX_FILE_BYTES).unwrap_err();
    assert_eq!(err.message(), "a is 4294967297 bytes, past the 4 GiB copy ceiling");
    let err = check_put_source("dir", true, 0, MAX_FILE_BYTES).unwrap_err().message();
    assert!(err.contains("single files"), "{err}");
}

#[test]
fn a_reply_is_taken_only_for_what_was_asked() {
    let put = || ReplyRead::Reply(FileReply::Put);
    let get = |size| ReplyRead::Reply(FileReply::Get { mode: 0o600, size });
    assert!(check_put("a", put(), 8, 8).is_ok());
    assert!(check_put("a", get(8), 8, 8).unwrap_err().message().contains("put request"));
    assert!(check_get("/a", put(), MAX_FILE_BYTES).unwrap_err().message().contains("get request"));
    assert!(
        check_put("a", put(), 4, 8)
            .unwrap_err()
            .message()
            .contains("shrank while it was being copied (4 of 8 bytes)")
    );
    assert!(
        check_get("/a", get(MAX_FILE_BYTES + 1), MAX_FILE_BYTES)
            .unwrap_err()
            .message()
            .contains("past the 4 GiB copy ceiling")
    );
    let refused = ReplyRead::Reply(FileReply::Refused("no\x1b such file".to_string()));
    assert_eq!(check_put("a", refused, 8, 8).unwrap_err().message(), "guest: no\\u{1b} such file");
    assert_eq!(
        check_put("a", ReplyRead::Closed, 8, 8).unwrap_err().message(),
        "agent closed connection without replying"
    );
    assert_eq!(
        check_put("a", ReplyRead::Failed("reset".to_string()), 8, 8).unwrap_err().full_message(),
        "reading the agent's reply: reset"
    );
    assert_eq!(report("a", "/b", 8), "terra: copied a -> /b (8 bytes)");
}
