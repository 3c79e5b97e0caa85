//! The error of this crate: a message for the person at the terminal, with
//! what is behind it.

use vstd::prelude::*;

use crate::text;

verus! {

/// A failure: the message that reports it, and what is behind it, the
/// nearest cause first.
#[derive(Debug)]
pub struct Error {
    pub message: String,
    pub causes: Vec<String>,
}

/// A failure, as text.
#[verifier::ext_equal]
pub struct Fault {
    pub message: Seq<char>,
    pub causes: Seq<Seq<char>>,
}

impl View for Error {
    type V = Fault;

    open spec fn view(&self) -> Fault {
        Fault { message: self.message@, causes: text::texts(self.causes@) }
    }
}

/// The failure that this message reports, with nothing behind it.
pub open spec fn said(message: Seq<char>) -> Fault {
    Fault { message, causes: Seq::empty() }
}

/// The failure that this message reports, with another failure behind it.
pub open spec fn under(message: Seq<char>, cause: Fault) -> Fault {
    Fault { message, causes: seq![cause.message] + cause.causes }
}

impl Error {
    /// The same failure once more.
    pub fn copy(&self) -> (r: Error)
        ensures
            r@ == self@,
    {
        Error { message: self.message.clone(), causes: self.causes.clone() }
    }
}

/// How an operation failed; `None` if it succeeded.
pub open spec fn fault<T>(r: Result<T, Error>) -> Option<Fault> {
    match r {
        Ok(_) => None,
        Err(e) => Some(e@),
    }
}

/// The error that reports `message`.
pub fn failure(message: String) -> (e: Error)
    ensures
        e@ == said(message@),
{
    Error { message, causes: Vec::new() }
}

/// The error that reports `message`, with another one behind it.
pub fn failure_under(message: String, cause: Error) -> (e: Error)
    ensures
        e@ == under(message@, cause@),
{
    let Error { message: nearest, causes: mut rest } = cause;
    let ghost behind = text::texts(rest@);
    rest.insert(0, nearest);
    proof {
        assert(text::texts(rest@) == seq![nearest@] + behind);
    }
    Error { message, causes: rest }
}

/// What std's `Debug` formatting makes of a text: the text in double
/// quotes, with its special characters escaped.
pub uninterp spec fn quoted(text: Seq<char>) -> Seq<char>;

/// `format!` (std) with `{:?}` on a `str`: the escaped text in double
/// quotes. It depends on the text alone; which characters are escaped, and
/// how, is left to the name.
#[verifier::external_body]
pub(crate) fn quote(text: &str) -> (r: String)
    ensures
        r@ == quoted(text@),
{
    format!("{text:?}")
}

} // verus!
