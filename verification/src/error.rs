//! The error of every managed-installation operation.

use vstd::prelude::*;
use vstd::string::*;

verus! {

/// A failure of a managed operation: a stable code and what went wrong.
#[derive(Debug)]
pub struct ManagedError {
    pub code: &'static str,
    pub message: String,
}

pub type ManagedResult<T> = Result<T, ManagedError>;

/// The code and the message of a failure.
pub type Failure = (Seq<char>, Seq<char>);

/// How a failure reads as one line of text.
pub open spec fn failure_text(f: Failure) -> Seq<char> {
    f.0 + ": "@ + f.1
}

/// The failure that a result holds, if it holds one.
pub open spec fn failure<T>(r: Result<T, ManagedError>) -> Option<Failure> {
    match r {
        Ok(_) => None,
        Err(e) => Some(e@),
    }
}

/// What a result comes to: a value or a failure.
pub open spec fn outcome<T: View>(r: Result<T, ManagedError>) -> Result<T::V, Failure> {
    match r {
        Ok(v) => Ok(v@),
        Err(e) => Err(e@),
    }
}

/// A failure under another code, with its old text as the message.
pub open spec fn recoded(f: Option<Failure>, code: Seq<char>) -> Option<Failure> {
    match f {
        None => None,
        Some(f) => Some((code, failure_text(f))),
    }
}

impl View for ManagedError {
    type V = Failure;

    open spec fn view(&self) -> Failure {
        (self.code@, self.message@)
    }
}

impl ManagedError {
    /// An error with a code and a message.
    pub fn new(code: &'static str, message: &str) -> (r: Self)
        ensures
            r@ == (code@, message@),
    {
        ManagedError { code, message: message.to_owned() }
    }

    /// An error with a code and a message that was built for it.
    pub fn with_message(code: &'static str, message: String) -> (r: Self)
        ensures
            r@ == (code@, message@),
    {
        ManagedError { code, message }
    }

    /// An error that carries the text of an operating-system error.
    pub fn io(code: &'static str, context: &str, error: &str) -> (r: Self)
        ensures
            r@ == (code@, context@ + ": "@ + error@),
    {
        let mut message = context.to_owned();
        message.append(": ");
        message.append(error);
        ManagedError { code, message }
    }

    /// The error as one line of text.
    pub fn text(&self) -> (r: String)
        ensures
            r@ == failure_text(self@),
    {
        let mut text = self.code.to_owned();
        text.append(": ");
        text.append(self.message.as_str());
        text
    }

    /// A copy of the error.
    pub fn copy(&self) -> (r: Self)
        ensures
            r@ == self@,
    {
        ManagedError { code: self.code, message: self.message.clone() }
    }

    /// The error under another code, with its text as the message.
    pub fn recode(self, code: &'static str) -> (r: Self)
        ensures
            r@ == (code@, failure_text(self@)),
    {
        ManagedError { code, message: self.text() }
    }
}

/// The first of two failures, in the order in which they are looked for.
pub open spec fn or_else(first: Option<Failure>, second: Option<Failure>) -> Option<Failure> {
    match first {
        Some(f) => Some(f),
        None => second,
    }
}

/// An error result with a code and a message.
pub fn fail<T>(code: &'static str, message: &str) -> (r: Result<T, ManagedError>)
    ensures
        failure(r) == Some((code@, message@)),
{
    Err(ManagedError::new(code, message))
}

/// Of two failures the first one counts, and there is none only where there is neither. One
/// that is told under another code keeps its old code and its message in its text.
pub proof fn law_the_first_failure_counts(
    first: Option<Failure>,
    second: Option<Failure>,
    code: Seq<char>,
)
    ensures
        or_else(first, second) is None <==> first is None && second is None,
        first is Some ==> or_else(first, second) == first,
        first is None ==> or_else(first, second) == second,
        recoded(first, code) is None <==> first is None,
        first is Some ==> recoded(first, code) == Some(
            (code, (first->0).0 + seq![':', ' '] + (first->0).1),
        ),
{
    reveal_strlit(": ");
    assert(": "@ =~= seq![':', ' ']);
}

} // verus!
