use vstd::prelude::*;

verus! {

/// Classifies every pipeline failure: a mistake in the caller's input, or a
/// broken contract of a trusted internal step or of the environment.
#[derive(Clone, Copy, PartialEq, Eq, Structural, Debug)]
pub enum ErrorKind {
    User,
    Internal,
}

/// A pipeline error: a short primary message and an optional secondary detail
/// line, typically the text an external tool printed on its error stream.
pub struct CmdErr {
    pub kind: ErrorKind,
    pub message: String,
    pub secondary: Option<String>,
}

impl CmdErr {
    /// A user-input error with no secondary detail.
    pub fn user(message: &str) -> (e: CmdErr)
        ensures
            e.kind is User,
            e.message@ == message@,
            e.secondary is None,
    {
        CmdErr { kind: ErrorKind::User, message: message.to_owned(), secondary: None }
    }

    /// A user-input error carrying an external tool's diagnostic text.
    pub fn user_with(message: &str, secondary: String) -> (e: CmdErr)
        ensures
            e.kind is User,
            e.message@ == message@,
            e.secondary == Some(secondary),
    {
        CmdErr { kind: ErrorKind::User, message: message.to_owned(), secondary: Some(secondary) }
    }

    /// An internal error with no secondary detail.
    pub fn internal(message: &str) -> (e: CmdErr)
        ensures
            e.kind is Internal,
            e.message@ == message@,
            e.secondary is None,
    {
        CmdErr { kind: ErrorKind::Internal, message: message.to_owned(), secondary: None }
    }

    /// An internal error carrying an external tool's diagnostic text.
    pub fn internal_with(message: &str, secondary: String) -> (e: CmdErr)
        ensures
            e.kind is Internal,
            e.message@ == message@,
            e.secondary == Some(secondary),
    {
        CmdErr { kind: ErrorKind::Internal, message: message.to_owned(), secondary: Some(secondary) }
    }
}

/// Turns a validated condition into a result: `Ok` exactly when the condition
/// holds, and otherwise a user error carrying the given message.
pub fn check(condition: bool, message: &str) -> (r: Result<(), CmdErr>)
    ensures
        r is Ok <==> condition,
        !condition ==> (r matches Err(e) && e.kind is User && e.message@ == message@
            && e.secondary is None),
{
    if condition {
        Ok(())
    } else {
        Err(CmdErr::user(message))
    }
}

} // verus!
