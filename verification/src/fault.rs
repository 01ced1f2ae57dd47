//! Failures and the text in which they are reported.

use vstd::prelude::*;

verus! {

/// What a caller may need to tell apart about a failure.
#[derive(Clone, Copy, Debug, PartialEq, Eq, Structural)]
pub enum FaultKind {
    /// Nothing beyond the message.
    General,
    /// No installed desktop application matches a query.
    DesktopAppNotFound,
    /// No window matches a query.
    WindowNotFound,
}

/// A failure: what kind it is and the message that reports it.
#[derive(Debug)]
pub struct Fault {
    pub kind: FaultKind,
    pub message: String,
}

/// A failure, with its message as a sequence of characters.
pub struct FaultView {
    pub kind: FaultKind,
    pub message: Seq<char>,
}

impl View for Fault {
    type V = FaultView;

    open spec fn view(&self) -> FaultView {
        FaultView { kind: self.kind, message: self.message@ }
    }
}

/// A failure of which only the message matters.
pub open spec fn general(message: Seq<char>) -> FaultView {
    FaultView { kind: FaultKind::General, message }
}

/// Whether a result is the one that `expected` describes.
pub open spec fn agrees<T: View>(r: Result<T, Fault>, expected: Result<T::V, FaultView>) -> bool {
    match (r, expected) {
        (Ok(value), Ok(model)) => value@ == model,
        (Err(fault), Err(model)) => fault@ == model,
        _ => false,
    }
}

/// A failure reported under a heading.
pub open spec fn under(heading: Seq<char>, fault: FaultView) -> FaultView {
    FaultView { kind: fault.kind, message: heading + ": "@ + fault.message }
}

impl Fault {
    /// A failure of which only the message matters.
    pub fn new(message: String) -> (r: Fault)
        ensures
            r@ == general(message@),
    {
        Fault { kind: FaultKind::General, message }
    }

    /// A failure of which only the message matters.
    pub fn of(message: &str) -> (r: Fault)
        ensures
            r@ == general(message@),
    {
        Fault { kind: FaultKind::General, message: message.to_owned() }
    }

    /// The same failure under a heading that says what was being done.
    pub fn context(self, heading: &str) -> (r: Fault)
        ensures
            r@ == under(heading@, self@),
    {
        let mut message = heading.to_owned();
        message.append(": ");
        message.append(self.message.as_str());
        Fault { kind: self.kind, message }
    }
}

impl Clone for Fault {
    fn clone(&self) -> (r: Fault)
        ensures
            r@ == self@,
    {
        Fault { kind: self.kind, message: self.message.clone() }
    }
}

} // verus!
