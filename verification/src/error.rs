//! What a refused request says.

use crate::text;
use vstd::prelude::*;

verus! {

/// Why something was refused: the message, then what lies behind it, from the
/// outermost to the root cause.
#[derive(Debug)]
pub struct Error {
    chain: Vec<String>,
    stdout_closed: bool,
}

/// The messages of a refusal, outermost first.
pub type Refusal = Seq<Seq<char>>;

impl View for Error {
    type V = Refusal;

    closed spec fn view(&self) -> Refusal {
        text::texts(self.chain@)
    }
}

/// A refusal of one message.
pub open spec fn refusal(message: Seq<char>) -> Refusal {
    seq![message]
}

/// A result with its error as the messages it holds.
pub open spec fn outcome<T>(result: Result<T, Error>) -> Result<T, Refusal> {
    match result {
        Ok(value) => Ok(value),
        Err(error) => Err(error@),
    }
}

impl Error {
    /// Whether all that went wrong is that nobody reads standard output.
    pub closed spec fn marks_closed_stdout(&self) -> bool {
        self.stdout_closed
    }

    pub fn new(message: String) -> (error: Error)
        ensures
            error@ == refusal(message@),
            !error.marks_closed_stdout(),
    {
        let ghost text = message@;
        let mut chain: Vec<String> = Vec::new();
        chain.push(message);
        let error = Error { chain, stdout_closed: false };
        proof {
            assert(error@ =~= refusal(text));
        }
        error
    }

    /// The error of a write to standard output that nobody reads.
    pub fn stdout_reader_closed() -> (error: Error)
        ensures
            error@ == refusal("stdout reader closed"@),
            error.marks_closed_stdout(),
    {
        let mut chain: Vec<String> = Vec::new();
        chain.push("stdout reader closed".to_owned());
        let error = Error { chain, stdout_closed: true };
        proof {
            assert(error@ =~= refusal("stdout reader closed"@));
        }
        error
    }

    pub fn is_stdout_closed(&self) -> (yes: bool)
        ensures
            yes == self.marks_closed_stdout(),
    {
        self.stdout_closed
    }

    /// The error with a message in front of it.
    pub fn context(self, message: String) -> (error: Error)
        ensures
            error@ == refusal(message@) + self@,
            error.marks_closed_stdout() == self.marks_closed_stdout(),
    {
        let ghost behind = self@;
        let ghost text = message@;
        let closed = self.stdout_closed;
        let mut chain = self.chain;
        chain.insert(0, message);
        let error = Error { chain, stdout_closed: closed };
        proof {
            assert(error@ =~= refusal(text) + behind);
        }
        error
    }

    /// The outermost message.
    pub fn message(&self) -> (message: String)
        ensures
            message@ == (if self@.len() == 0 { Seq::<char>::empty() } else { self@[0] }),
    {
        if self.chain.len() == 0 {
            String::new()
        } else {
            self.chain[0].as_str().to_owned()
        }
    }

    /// All messages, each followed by what lies behind it.
    pub fn full_message(&self) -> (message: String)
        ensures
            message@ == text::joined(self@, ": "@),
    {
        text::join_texts(&self.chain, ": ")
    }
}

/// Whether all that went wrong is that nobody reads standard output.
pub fn is_stdout_broken_pipe(error: &Error) -> (yes: bool)
    ensures
        yes == error.marks_closed_stdout(),
{
    error.is_stdout_closed()
}

pub fn refuse(message: &str) -> (error: Error)
    ensures
        error@ == refusal(message@),
        !error.marks_closed_stdout(),
{
    Error::new(message.to_owned())
}

} // verus!
