//! Talking to the agent of a running box: when to wait for it, what its
//! answers mean, and what a terminal's bytes are.

use crate::error::{self, Error, Refusal, refuse};
use crate::state::{self, BoxRef, BoxView, Holder};
use crate::text::{self, spell};
use vstd::prelude::*;

verus! {

/// The most clients a session is believed to have.
pub const MAX_SESSION_CLIENTS: usize = 1024;

/// The key that detaches: a control byte no workload waits for.
pub const DETACH_KEY: u8 = 0x1C;

/// What the detach key is called.
pub const DETACH_KEY_NAME: &'static str = "Ctrl-\\";

/// The size of a terminal, in characters.
#[derive(Debug, Clone, Copy, PartialEq, Eq, Structural)]
pub struct TermSize {
    pub rows: u16,
    pub cols: u16,
}

pub const DEFAULT_TERMINAL_ROWS: u16 = 24;

pub const DEFAULT_TERMINAL_COLS: u16 = 80;

/// The size of a terminal, where it has one.
pub fn terminal_size(cols: u16, rows: u16) -> (size: Option<TermSize>)
    ensures
        size == size_of_terminal(cols, rows),
{
    if rows > 0 && cols > 0 {
        Some(TermSize { rows, cols })
    } else {
        None
    }
}

/// The size a command's terminal starts with.
pub fn size_or_default(size: Option<TermSize>) -> (chosen: TermSize)
    ensures
        chosen == size_or_usual(size),
{
    match size {
        Some(size) => size,
        None => TermSize { rows: DEFAULT_TERMINAL_ROWS, cols: DEFAULT_TERMINAL_COLS },
    }
}

/// The size to report: one that differs from what was reported last.
pub fn size_to_report(read: Option<TermSize>, last: Option<TermSize>) -> (size: Option<TermSize>)
    ensures
        size == size_that_changed(read, last),
{
    match (read, last) {
        (Some(now), Some(before)) => if now == before {
            None
        } else {
            Some(now)
        },
        (now, _) => now,
    }
}

/// How a session ended.
#[derive(Debug, Clone, Copy, PartialEq, Eq, Structural)]
pub enum SessionOutcome {
    Detached,
    Exited(i32),
    Closed,
}

/// Whether a box serves its agent, going by who holds it.
pub open spec fn serving(bx: BoxView, holder: Holder, stopped: Seq<char>) -> Result<(), Refusal> {
    match holder {
        Holder::Running => Ok(()),
        Holder::SettingUp => Err(state::being_set_up(bx)),
        Holder::Free => Err(error::refusal(state::shown(bx) + " "@ + stopped)),
    }
}

pub fn still_serving(bx: &BoxRef, holder: Holder, stopped: &str) -> (verdict: Result<(), Error>)
    ensures
        error::outcome(verdict) == serving(bx@, holder, stopped@),
{
    match holder {
        Holder::Running => Ok(()),
        Holder::SettingUp => Err(bx.setup_holds_it()),
        Holder::Free => {
            let mut message: String = bx.describe();
            message.append(" ");
            message.append(stopped);
            Err(Error::new(message))
        },
    }
}

/// Refuses a verb that talks to the agent of a box that is not running.
pub fn ensure_running(bx: &BoxRef, holder: Holder, verb: &str) -> (verdict: Result<(), Error>)
    ensures
        error::outcome(verdict) == serving(
            bx@,
            holder,
            "is not running - `terra "@ + verb@ + "` talks to the live agent (`terra "@ + bx@.name
                + " -d` first)"@,
        ),
{
    let mut stopped: String = "is not running - `terra ".to_owned();
    stopped.append(verb);
    stopped.append("` talks to the live agent (`terra ");
    stopped.append(bx.name());
    stopped.append(" -d` first)");
    still_serving(bx, holder, stopped.as_str())
}

/// Whether to go on waiting for the agent of a box: for as long as it runs,
/// and no longer than was allowed.
pub open spec fn waiting(bx: BoxView, holder: Holder, timeout: Option<u64>, expired: bool) -> Result<
    (),
    Refusal,
> {
    match serving(bx, holder, "stopped before its agent answered"@) {
        Err(refused) => Err(refused),
        Ok(_) => match timeout {
            Some(secs) if expired => Err(
                error::refusal(
                    state::shown(bx) + "'s agent did not answer within the --agent-timeout of "@
                        + text::decimal(secs as nat) + "s (still booting, or baking `on_create`?)"@,
                ),
            ),
            _ => Ok(()),
        },
    }
}

/// Whether to go on waiting for the agent of a box. `timeout` is how many
/// seconds were allowed, and `expired` whether they are over.
pub fn wait_while_running(bx: &BoxRef, holder: Holder, timeout: Option<u64>, expired: bool) -> (
    verdict: Result<(), Error>)
    ensures
        error::outcome(verdict) == waiting(bx@, holder, timeout, expired),
{
    match still_serving(bx, holder, "stopped before its agent answered") {
        Ok(()) => {},
        Err(error) => {
            return Err(error);
        },
    }
    if let Some(secs) = timeout {
        if expired {
            let mut message: String = bx.describe();
            message.append("'s agent did not answer within the --agent-timeout of ");
            message.append(spell(secs).as_str());
            message.append("s (still booting, or baking `on_create`?)");
            return Err(Error::new(message));
        }
    }
    Ok(())
}

/// Why the waiting ended, with what came of the last attempt.
pub open spec fn waited_in_vain(refused: Refusal, last_connect_error: Option<Seq<char>>) -> Refusal {
    match last_connect_error {
        Some(last) => error::refusal("last connection attempt: "@ + last) + refused,
        None => refused,
    }
}

pub fn stop_waiting(error: Error, last_connect_error: Option<String>) -> (stopped: Error)
    ensures
        stopped@ == waited_in_vain(error@, text::text_of(last_connect_error)),
{
    match last_connect_error {
        Some(last) => {
            let mut message: String = "last connection attempt: ".to_owned();
            message.append(last.as_str());
            error.context(message)
        },
        None => error,
    }
}

/// What is said once the waiting has gone on for a while.
pub open spec fn hint(bx: BoxView, what: Seq<char>) -> Seq<char> {
    "terra: still waiting for "@ + state::shown(bx) + "'s "@ + what + " - `"@ + state::logs_command_of(
        bx,
    ) + " --diagnostics --follow` shows the guest boot"@
}

pub fn waiting_hint(bx: &BoxRef, what: &str) -> (line: String)
    ensures
        line@ == hint(bx@, what@),
{
    let mut line: String = "terra: still waiting for ".to_owned();
    line.append(bx.describe().as_str());
    line.append("'s ");
    line.append(what);
    line.append(" - `");
    line.append(bx.logs_command().as_str());
    line.append(" --diagnostics --follow` shows the guest boot");
    line
}

/// What came of one attempt to reach an agent, byte by byte of its greeting.
#[derive(Debug)]
pub enum AgentGreeting {
    TimedOut,
    Unreachable(String),
    /// It did not get as far as its first byte.
    Silent,
    /// It sent a first byte, and the second did not come in time.
    First(u8),
    /// It sent both, and then did or did not take the request.
    Both { magic: u8, version: u8, took_request: bool },
}

/// What an attempt to reach an agent comes to.
#[derive(Debug)]
pub enum GreetingStep {
    Ready,
    /// Try again; what went wrong is remembered where it says anything.
    Again { trouble: Option<String> },
}

#[verifier::ext_equal]
pub enum GreetingStepView {
    Ready,
    Again { trouble: Option<Seq<char>> },
}

impl View for GreetingStep {
    type V = GreetingStepView;

    open spec fn view(&self) -> GreetingStepView {
        match self {
            GreetingStep::Ready => GreetingStepView::Ready,
            GreetingStep::Again { trouble } => GreetingStepView::Again { trouble: text::text_of(*trouble) },
        }
    }
}

/// What is said of an agent that speaks another protocol.
pub open spec fn foreign_agent(bx: BoxView) -> Refusal {
    error::refusal(
        "the agent in "@ + state::shown(bx) + " does not speak this terra's protocol - `terra "@ + bx.name
            + " stop` and start it again on this build"@,
    )
}

/// What an attempt to reach an agent that should greet with two bytes comes
/// to: only one that does is talked to, and one that greets otherwise is
/// refused.
pub open spec fn greeting(bx: BoxView, attempt: AgentGreeting, magic: u8, version: u8) -> Result<
    GreetingStepView,
    Refusal,
> {
    match attempt {
        AgentGreeting::TimedOut => Ok(
            GreetingStepView::Again { trouble: Some("connection attempt timed out"@) },
        ),
        AgentGreeting::Unreachable(why) => Ok(GreetingStepView::Again { trouble: Some(why@) }),
        AgentGreeting::Silent => Ok(GreetingStepView::Again { trouble: None }),
        AgentGreeting::First(byte) => if byte != magic {
            Err(foreign_agent(bx))
        } else {
            Ok(GreetingStepView::Again { trouble: None })
        },
        AgentGreeting::Both { magic: byte, version: number, took_request } => if byte != magic
            || number != version {
            Err(foreign_agent(bx))
        } else if took_request {
            Ok(GreetingStepView::Ready)
        } else {
            Ok(GreetingStepView::Again { trouble: None })
        },
    }
}

fn refuse_foreign_agent(bx: &BoxRef) -> (error: Error)
    ensures
        error@ == foreign_agent(bx@),
{
    let mut message: String = "the agent in ".to_owned();
    message.append(bx.describe().as_str());
    message.append(" does not speak this terra's protocol - `terra ");
    message.append(bx.name());
    message.append(" stop` and start it again on this build");
    Error::new(message)
}

pub fn judge_greeting(bx: &BoxRef, attempt: AgentGreeting, magic: u8, version: u8) -> (step: Result<
    GreetingStep,
    Error,
>)
    ensures
        match step {
            Ok(step) => greeting(bx@, attempt, magic, version) == Ok::<_, Refusal>(step@),
            Err(error) => greeting(bx@, attempt, magic, version) == Err::<GreetingStepView, _>(
                error@,
            ),
        },
{
    match attempt {
        AgentGreeting::TimedOut => Ok(
            GreetingStep::Again { trouble: Some("connection attempt timed out".to_owned()) },
        ),
        AgentGreeting::Unreachable(why) => Ok(GreetingStep::Again { trouble: Some(why) }),
        AgentGreeting::Silent => Ok(GreetingStep::Again { trouble: None }),
        AgentGreeting::First(byte) => {
            if byte != magic {
                return Err(refuse_foreign_agent(bx));
            }
            Ok(GreetingStep::Again { trouble: None })
        },
        AgentGreeting::Both { magic: byte, version: number, took_request } => {
            if byte != magic || number != version {
                return Err(refuse_foreign_agent(bx));
            }
            if took_request {
                Ok(GreetingStep::Ready)
            } else {
                Ok(GreetingStep::Again { trouble: None })
            }
        },
    }
}

/// Whether the second byte of a greeting is worth reading: only after the
/// right first one.
pub fn reads_version(byte: u8, magic: u8) -> (yes: bool)
    ensures
        yes == (byte == magic),
{
    byte == magic
}

/// Waiting for the agent of a box, round by round.
#[derive(Debug)]
pub struct AgentWait {
    hinted: bool,
    last_connect_error: Option<String>,
}

#[verifier::ext_equal]
pub struct WaitView {
    /// Whether it was said that this takes a while.
    pub hinted: bool,
    /// What came of the last attempt that said anything.
    pub last_connect_error: Option<Seq<char>>,
}

impl View for AgentWait {
    type V = WaitView;

    closed spec fn view(&self) -> WaitView {
        WaitView {
            hinted: self.hinted,
            last_connect_error: text::text_of(self.last_connect_error),
        }
    }
}

/// The waiting after an attempt: what went wrong is remembered until
/// something else does.
pub open spec fn attempted(wait: WaitView, step: GreetingStepView) -> WaitView {
    match step {
        GreetingStepView::Again { trouble: Some(why) } => WaitView {
            last_connect_error: Some(why),
            ..wait
        },
        _ => wait,
    }
}

impl AgentWait {
    pub fn new() -> (wait: AgentWait)
        ensures
            wait@ == (WaitView { hinted: false, last_connect_error: None }),
    {
        AgentWait { hinted: false, last_connect_error: None }
    }

    /// Begins a round: whether to try, and what to say. It is said once that
    /// the waiting is overdue, and once what came of the last attempt.
    pub fn look(
        &mut self,
        bx: &BoxRef,
        what: &str,
        is_overdue: bool,
        holder: Holder,
        timeout: Option<u64>,
        expired: bool,
    ) -> (round: (Option<String>, Result<(), Error>))
        ensures
            text::text_of(round.0) == (if is_overdue && !old(self)@.hinted {
                Some(hint(bx@, what@))
            } else {
                None
            }),
            error::outcome(round.1) == (match waiting(bx@, holder, timeout, expired) {
                Ok(_) => Ok(()),
                Err(refused) => Err(waited_in_vain(refused, old(self)@.last_connect_error)),
            }),
            final(self)@.hinted == (old(self)@.hinted || is_overdue),
            final(self)@.last_connect_error == (if round.1 is Ok {
                old(self)@.last_connect_error
            } else {
                None
            }),
    {
        let line = if is_overdue && !self.hinted {
            self.hinted = true;
            Some(waiting_hint(bx, what))
        } else {
            None
        };
        match wait_while_running(bx, holder, timeout, expired) {
            Ok(()) => (line, Ok(())),
            Err(error) => {
                let last = self.last_connect_error.take();
                (line, Err(stop_waiting(error, last)))
            },
        }
    }

    /// Takes in an attempt: whether the agent is there to talk to.
    pub fn met(&mut self, bx: &BoxRef, attempt: AgentGreeting, magic: u8, version: u8) -> (met: Result<
        bool,
        Error,
    >)
        ensures
            match greeting(bx@, attempt, magic, version) {
                Ok(step) => met == Ok::<bool, Error>(step is Ready) && final(self)@ == attempted(
                    old(self)@,
                    step,
                ),
                Err(refused) => met is Err && met->Err_0@ == refused && final(self)@ == old(self)@,
            },
    {
        match judge_greeting(bx, attempt, magic, version) {
            Ok(GreetingStep::Ready) => Ok(true),
            Ok(GreetingStep::Again { trouble }) => {
                if let Some(why) = trouble {
                    self.last_connect_error = Some(why);
                }
                Ok(false)
            },
            Err(error) => Err(error),
        }
    }
}

/// An agent is talked to only where it greeted with both bytes this program
/// goes by and took the request.
pub proof fn only_known_agents_are_talked_to(
    bx: BoxView,
    attempt: AgentGreeting,
    magic: u8,
    version: u8,
)
    ensures
        greeting(bx, attempt, magic, version) == Ok::<GreetingStepView, Refusal>(
            GreetingStepView::Ready,
        ) <==> attempt == (AgentGreeting::Both { magic, version, took_request: true }),
{
}

/// One attached client of a box's session.
#[derive(Debug, Clone, Copy, PartialEq, Eq, Structural)]
pub struct SessionClient {
    pub id: u64,
    pub reported_term_size: Option<TermSize>,
}

/// What the agent answers about its session.
#[derive(Debug, Clone, Copy, PartialEq, Eq, Structural)]
pub enum ControlReply {
    Client { id: u64, size: Option<TermSize> },
    Done,
    Detached { id: u64 },
    Missing { id: u64 },
}

/// What came of reading such an answer.
#[derive(Debug)]
pub enum ControlRead {
    TimedOut,
    Failed(String),
    Closed,
    Reply(ControlReply),
}

/// How a listing or a detaching goes on.
#[derive(Debug)]
pub enum ControlStep<T> {
    More(T),
    Done(T),
}

/// What becomes of a listing with the next answer.
pub open spec fn listing_step(bx: BoxView, clients: Seq<SessionClient>, read: ControlRead) -> Result<
    ControlStep<Seq<SessionClient>>,
    Refusal,
> {
    match read {
        ControlRead::TimedOut => Err(error::refusal("reading the session listing timed out"@)),
        ControlRead::Failed(why) => Err(
            error::refusal("reading the session listing"@) + error::refusal(why@),
        ),
        ControlRead::Closed => Err(
            error::refusal(state::shown(bx) + " stopped before its agent listed the session"@),
        ),
        ControlRead::Reply(ControlReply::Client { id, size }) => if clients.len()
            == MAX_SESSION_CLIENTS {
            Err(
                error::refusal(
                    "the agent sent more than "@ + text::decimal(MAX_SESSION_CLIENTS as nat)
                        + " session clients"@,
                ),
            )
        } else {
            Ok(
                ControlStep::More(
                    clients.push(SessionClient { id, reported_term_size: size }),
                ),
            )
        },
        ControlRead::Reply(ControlReply::Done) => Ok(ControlStep::Done(clients)),
        ControlRead::Reply(_) => Err(
            error::refusal("the agent answered a listing with a detach reply"@),
        ),
    }
}

fn stopped_before(bx: &BoxRef, what: &str) -> (error: Error)
    ensures
        error@ == error::refusal(state::shown(bx@) + what@),
{
    let mut message: String = bx.describe();
    message.append(what);
    Error::new(message)
}

/// Takes the next answer into a listing of clients.
pub fn list_clients_step(bx: &BoxRef, clients: Vec<SessionClient>, read: ControlRead) -> (step: Result<
    ControlStep<Vec<SessionClient>>,
    Error,
>)
    ensures
        match (step, listing_step(bx@, clients@, read)) {
            (Ok(ControlStep::More(list)), Ok(ControlStep::More(expected))) => list@ == expected,
            (Ok(ControlStep::Done(list)), Ok(ControlStep::Done(expected))) => list@ == expected,
            (Err(error), Err(refused)) => error@ == refused,
            _ => false,
        },
{
    match read {
        ControlRead::TimedOut => Err(refuse("reading the session listing timed out")),
        ControlRead::Failed(why) => Err(
            Error::new(why).context("reading the session listing".to_owned()),
        ),
        ControlRead::Closed => Err(
            stopped_before(bx, " stopped before its agent listed the session"),
        ),
        ControlRead::Reply(ControlReply::Client { id, size }) => {
            if clients.len() == MAX_SESSION_CLIENTS {
                let mut message: String = "the agent sent more than ".to_owned();
                message.append(spell(MAX_SESSION_CLIENTS as u64).as_str());
                message.append(" session clients");
                return Err(Error::new(message));
            }
            let mut list = clients;
            list.push(SessionClient { id, reported_term_size: size });
            Ok(ControlStep::More(list))
        },
        ControlRead::Reply(ControlReply::Done) => Ok(ControlStep::Done(clients)),
        ControlRead::Reply(_) => Err(
            refuse("the agent answered a listing with a detach reply"),
        ),
    }
}

/// What a listing takes in stays within bounds, whatever the agent sends.
pub proof fn listings_stay_bounded(bx: BoxView, clients: Seq<SessionClient>, read: ControlRead)
    requires
        clients.len() <= MAX_SESSION_CLIENTS,
    ensures
        match listing_step(bx, clients, read) {
            Ok(ControlStep::More(list)) => list.len() == clients.len() + 1 && list.len()
                <= MAX_SESSION_CLIENTS,
            Ok(ControlStep::Done(list)) => list == clients,
            Err(_) => true,
        },
{
}

/// What the answer to a detach means.
pub fn detach_client(bx: &BoxRef, client_id: u64, read: ControlRead) -> (detached: Result<(), Error>)
    ensures
        error::outcome(detached) == detached_verdict(bx@, client_id, read),
{
    match read {
        ControlRead::TimedOut => Err(refuse("reading the detach reply timed out")),
        ControlRead::Failed(why) => Err(
            Error::new(why).context("reading the detach reply".to_owned()),
        ),
        ControlRead::Closed => Err(
            stopped_before(bx, " stopped before its agent answered the detach"),
        ),
        ControlRead::Reply(ControlReply::Detached { id }) => {
            if id == client_id {
                Ok(())
            } else {
                Err(answered_for_another(client_id, id))
            }
        },
        ControlRead::Reply(ControlReply::Missing { id }) => {
            if id == client_id {
                let mut message: String = "no client ".to_owned();
                message.append(spell(client_id).as_str());
                message.append(" is attached to ");
                message.append(bx.describe().as_str());
                Err(Error::new(message))
            } else {
                Err(answered_for_another(client_id, id))
            }
        },
        ControlRead::Reply(_) => Err(
            refuse("the agent answered a detach with a listing reply"),
        ),
    }
}

/// What is said of an answer about another client.
pub open spec fn other_client(asked: u64, answered: u64) -> Refusal {
    error::refusal(
        "the agent answered detach for client "@ + text::decimal(asked as nat) + " with client "@
            + text::decimal(answered as nat),
    )
}

fn answered_for_another(asked: u64, answered: u64) -> (error: Error)
    ensures
        error@ == other_client(asked, answered),
{
    let mut message: String = "the agent answered detach for client ".to_owned();
    message.append(spell(asked).as_str());
    message.append(" with client ");
    message.append(spell(answered).as_str());
    Error::new(message)
}

/// What becomes of the count of detached clients with the next answer.
pub open spec fn detaching_step(bx: BoxView, detached: u64, read: ControlRead) -> Result<
    ControlStep<u64>,
    Refusal,
> {
    match read {
        ControlRead::TimedOut => Err(error::refusal("reading the detach replies timed out"@)),
        ControlRead::Failed(why) => Err(
            error::refusal("reading the detach replies"@) + error::refusal(why@),
        ),
        ControlRead::Closed => Err(
            error::refusal(state::shown(bx) + " stopped before its agent answered the detach"@),
        ),
        ControlRead::Reply(ControlReply::Detached { .. }) => if detached >= MAX_SESSION_CLIENTS {
            Err(
                error::refusal(
                    "the agent sent more than "@ + text::decimal(MAX_SESSION_CLIENTS as nat)
                        + " detach replies"@,
                ),
            )
        } else {
            Ok(ControlStep::More((detached + 1) as u64))
        },
        ControlRead::Reply(ControlReply::Done) => Ok(ControlStep::Done(detached)),
        ControlRead::Reply(_) => Err(
            error::refusal("the agent answered a detach with a listing reply"@),
        ),
    }
}

/// Takes the next answer into the count of detached clients.
pub fn detach_all_step(bx: &BoxRef, detached: u64, read: ControlRead) -> (step: Result<
    ControlStep<u64>,
    Error,
>)
    ensures
        error::outcome(step) == detaching_step(bx@, detached, read),
{
    match read {
        ControlRead::TimedOut => Err(refuse("reading the detach replies timed out")),
        ControlRead::Failed(why) => Err(
            Error::new(why).context("reading the detach replies".to_owned()),
        ),
        ControlRead::Closed => Err(
            stopped_before(bx, " stopped before its agent answered the detach"),
        ),
        ControlRead::Reply(ControlReply::Detached { .. }) => {
            if detached >= MAX_SESSION_CLIENTS as u64 {
                let mut message: String = "the agent sent more than ".to_owned();
                message.append(spell(MAX_SESSION_CLIENTS as u64).as_str());
                message.append(" detach replies");
                return Err(Error::new(message));
            }
            Ok(ControlStep::More(detached + 1))
        },
        ControlRead::Reply(ControlReply::Done) => Ok(ControlStep::Done(detached)),
        ControlRead::Reply(_) => Err(
            refuse("the agent answered a detach with a listing reply"),
        ),
    }
}

/// The line of a client: its id and the size it reported, a tab between them.
pub fn format_client_line(client: &SessionClient) -> (line: String)
    ensures
        line@ == text::decimal(client.id as nat) + "\t"@ + (match client.reported_term_size {
            None => "-"@,
            Some(size) => text::decimal(size.rows as nat) + "x"@ + text::decimal(size.cols as nat),
        }),
{
    let mut line: String = spell(client.id);
    line.append("\t");
    match client.reported_term_size {
        None => {
            line.append("-");
        },
        Some(size) => {
            let mut text: String = spell(size.rows as u64);
            text.append("x");
            text.append(spell(size.cols as u64).as_str());
            line.append(text.as_str());
        },
    }
    line
}

/// What is said of clients that were detached.
pub fn report_detached(bx: &BoxRef, id: Option<u64>, detached: u64) -> (line: String)
    ensures
        line@ == (match id {
            Some(id) => "terra: detached client "@ + text::decimal(id as nat) + " from "@ + state::shown(bx@),
            None => if detached == 0 {
                "terra: nobody was attached to "@ + state::shown(bx@)
            } else {
                "terra: detached "@ + text::decimal(detached as nat) + " clients from "@ + state::shown(bx@)
            },
        }),
{
    match id {
        Some(id) => {
            let mut line: String = "terra: detached client ".to_owned();
            line.append(spell(id).as_str());
            line.append(" from ");
            line.append(bx.describe().as_str());
            line
        },
        None => {
            if detached == 0 {
                let mut line: String = "terra: nobody was attached to ".to_owned();
                line.append(bx.describe().as_str());
                return line;
            }
            let mut line: String = "terra: detached ".to_owned();
            line.append(spell(detached).as_str());
            line.append(" clients from ");
            line.append(bx.describe().as_str());
            line
        },
    }
}

/// What was typed: the bytes that go to the box, and whether the detach key
/// came after them.
#[derive(Debug)]
pub struct Typed {
    pub keys: Vec<u8>,
    pub detaches: bool,
}

/// Where a byte first stands among some, or how many there are.
pub open spec fn first_byte(bytes: Seq<u8>, wanted: u8) -> int
    decreases bytes.len(),
{
    if bytes.len() == 0 || bytes[0] == wanted {
        0
    } else {
        1 + first_byte(bytes.drop_first(), wanted)
    }
}

/// What was typed, of the bytes a terminal gave: everything before the first
/// detach key, and nothing after it.
pub fn split_typed(bytes: &Vec<u8>, escape: Option<u8>) -> (typed: Typed)
    ensures
        typed.keys@ == bytes@.take(typed_until(bytes@, escape)),
        typed.detaches == (typed_until(bytes@, escape) < bytes@.len()),
{
    let mut keys: Vec<u8> = Vec::new();
    let mut i: usize = 0;
    proof {
        assert(bytes@.skip(0) =~= bytes@);
    }
    while i < bytes.len()
        invariant
            i <= bytes@.len(),
            keys@ == bytes@.take(i as int),
            escape is Some ==> first_byte(bytes@, escape->0) == i + first_byte(
                bytes@.skip(i as int),
                escape->0,
            ),
        decreases bytes.len() - i,
    {
        proof {
            assert(bytes@.skip(i as int)[0] == bytes@[i as int]);
            assert(bytes@.skip(i as int).drop_first() =~= bytes@.skip(i + 1));
        }
        if let Some(key) = escape {
            if bytes[i] == key {
                return Typed { keys, detaches: true };
            }
        }
        keys.push(bytes[i]);
        proof {
            assert(keys@ =~= bytes@.take(i + 1));
        }
        i = i + 1;
    }
    proof {
        assert(bytes@.skip(i as int).len() == 0);
    }
    Typed { keys, detaches: false }
}

/// What a box sends of its workload.
#[derive(Debug)]
pub enum AgentOutput {
    Out(Vec<u8>),
    Diagnostic(Vec<u8>),
    Exit { code: i32 },
    Detached,
}

/// How a pump between a box and a terminal ends.
#[derive(Debug, Clone, Copy, PartialEq, Eq, Structural)]
pub enum PumpResult {
    Exit(i32),
    Detached,
    Closed,
    /// Nobody reads what is written.
    Sigpipe,
}

/// Where what a box sent goes.
#[derive(Debug, Clone, Copy, PartialEq, Eq, Structural)]
pub enum Sink {
    Out,
    Diagnostics,
}

/// Where what a box sent goes: diagnostics to a place of their own, where
/// there is one. `None` for what is not written at all.
pub fn sink_of(output: &AgentOutput, has_diagnostics: bool) -> (sink: Option<Sink>)
    ensures
        sink == goes_to(*output, has_diagnostics),
{
    match output {
        AgentOutput::Out(_) => Some(Sink::Out),
        AgentOutput::Diagnostic(_) => {
            if has_diagnostics {
                Some(Sink::Diagnostics)
            } else {
                Some(Sink::Out)
            }
        },
        _ => None,
    }
}

/// Whether the pump ends with what a box sent, `None` where the box is gone;
/// `wrote` says whether what had to be written could be.
pub fn pump_step(output: Option<&AgentOutput>, wrote: bool) -> (ended: Option<PumpResult>)
    ensures
        ended == pumped(
            match output {
                Some(output) => Some(*output),
                None => None,
            },
            wrote,
        ),
{
    match output {
        None => Some(PumpResult::Closed),
        Some(AgentOutput::Exit { code }) => Some(PumpResult::Exit(*code)),
        Some(AgentOutput::Detached) => Some(PumpResult::Detached),
        Some(_) => {
            if wrote {
                None
            } else {
                Some(PumpResult::Sigpipe)
            }
        },
    }
}

/// The exit status of a command that was run in a box; `sigpipe_status` is
/// that of one nobody reads.
pub fn exec_status(ended: PumpResult, sigpipe_status: i32) -> (status: Result<i32, Error>)
    ensures
        error::outcome(status) == status_after(ended, sigpipe_status),
{
    match ended {
        PumpResult::Exit(code) => Ok(code),
        PumpResult::Sigpipe => Ok(sigpipe_status),
        PumpResult::Detached => Err(refuse("the box answered an exec with a detach")),
        PumpResult::Closed => Err(refuse("the box stopped before the command finished")),
    }
}

/// How a session ended, by how its pump did.
pub fn session_outcome(ended: PumpResult) -> (outcome: SessionOutcome)
    ensures
        outcome == outcome_of(ended),
{
    match ended {
        PumpResult::Exit(code) => SessionOutcome::Exited(code),
        PumpResult::Detached => SessionOutcome::Detached,
        PumpResult::Sigpipe => SessionOutcome::Detached,
        PumpResult::Closed => SessionOutcome::Closed,
    }
}

/// An exit status as the byte a process leaves with; anything that is none
/// means that there was no status.
pub fn exit_status_byte(code: i32) -> (byte: u8)
    ensures
        byte == status_byte(code),
{
    if 0 <= code && code <= 255 {
        code as u8
    } else {
        1
    }
}

/// The size of a terminal, where it has one.
pub open spec fn size_of_terminal(cols: u16, rows: u16) -> Option<TermSize> {
    if rows > 0 && cols > 0 {
        Some(TermSize { rows, cols })
    } else {
        None
    }
}

/// A size, or the usual one.
pub open spec fn size_or_usual(size: Option<TermSize>) -> TermSize {
    match size {
        Some(size) => size,
        None => TermSize { rows: 24, cols: 80 },
    }
}

/// A size that was read, where it is not the last one.
pub open spec fn size_that_changed(read: Option<TermSize>, last: Option<TermSize>) -> Option<TermSize> {
    if read is Some && read != last {
        read
    } else {
        None
    }
}

/// How many of the bytes typed come before the key that detaches.
pub open spec fn typed_until(bytes: Seq<u8>, escape: Option<u8>) -> int {
    match escape {
        Some(key) => first_byte(bytes, key),
        None => bytes.len() as int,
    }
}

/// Where what an agent sends is written.
pub open spec fn goes_to(output: AgentOutput, has_diagnostics: bool) -> Option<Sink> {
    match output {
        AgentOutput::Out(_) => Some(Sink::Out),
        AgentOutput::Diagnostic(_) => Some(
            if has_diagnostics {
                Sink::Diagnostics
            } else {
                Sink::Out
            },
        ),
        _ => None,
    }
}

/// How a session ends with what an agent sent, if it does.
pub open spec fn pumped(output: Option<AgentOutput>, wrote: bool) -> Option<PumpResult> {
    match output {
        None => Some(PumpResult::Closed),
        Some(AgentOutput::Exit { code }) => Some(PumpResult::Exit(code)),
        Some(AgentOutput::Detached) => Some(PumpResult::Detached),
        Some(_) => if wrote {
            None
        } else {
            Some(PumpResult::Sigpipe)
        },
    }
}

/// The status of a command by how it ended.
pub open spec fn status_after(ended: PumpResult, sigpipe_status: i32) -> Result<i32, Refusal> {
    match ended {
        PumpResult::Exit(code) => Ok(code),
        PumpResult::Sigpipe => Ok(sigpipe_status),
        PumpResult::Detached => Err(error::refusal("the box answered an exec with a detach"@)),
        PumpResult::Closed => Err(error::refusal("the box stopped before the command finished"@)),
    }
}

/// What became of a session by how it ended.
pub open spec fn outcome_of(ended: PumpResult) -> SessionOutcome {
    match ended {
        PumpResult::Exit(code) => SessionOutcome::Exited(code),
        PumpResult::Detached => SessionOutcome::Detached,
        PumpResult::Sigpipe => SessionOutcome::Detached,
        PumpResult::Closed => SessionOutcome::Closed,
    }
}

/// A status as a process can exit with it.
pub open spec fn status_byte(code: i32) -> u8 {
    if 0 <= code <= 255 {
        code as u8
    } else {
        1
    }
}

/// Whether the client that was to be detached was.
pub open spec fn detached_verdict(bx: BoxView, client_id: u64, read: ControlRead) -> Result<
    (),
    Refusal,
> {
    match read {
        ControlRead::TimedOut => Err(error::refusal("reading the detach reply timed out"@)),
        ControlRead::Failed(why) => Err(
            error::refusal("reading the detach reply"@) + error::refusal(why@),
        ),
        ControlRead::Closed => Err(
            error::refusal(state::shown(bx) + " stopped before its agent answered the detach"@),
        ),
        ControlRead::Reply(ControlReply::Detached { id }) => if id == client_id {
            Ok(())
        } else {
            Err(other_client(client_id, id))
        },
        ControlRead::Reply(ControlReply::Missing { id }) => if id == client_id {
            Err(
                error::refusal(
                    "no client "@ + text::decimal(client_id as nat) + " is attached to "@
                        + state::shown(bx),
                ),
            )
        } else {
            Err(other_client(client_id, id))
        },
        ControlRead::Reply(_) => Err(
            error::refusal("the agent answered a detach with a listing reply"@),
        ),
    }
}

} // verus!
