//! How the results of an operation and of the clean-up after it are combined.

use crate::fault::{agrees, general, Fault, FaultView};
use crate::text::{join, joined, texts};
use vstd::prelude::*;

verus! {

/// Success, or what went wrong.
pub type Checked = Result<(), FaultView>;

/// The result of a clean-up during which the given failures were collected.
pub open spec fn cleaned(kind: Seq<char>, errors: Seq<Seq<char>>) -> Checked {
    if errors.len() == 0 {
        Ok(())
    } else {
        Err(general(kind + " cleanup failed: "@ + joined(errors, "; "@)))
    }
}

/// Reports the failures that were collected during a clean-up.
pub fn cleanup_result(kind: &str, errors: &Vec<String>) -> (r: Result<(), Fault>)
    ensures
        agrees(r, cleaned(kind@, texts(errors@))),
{
    if errors.len() == 0 {
        Ok(())
    } else {
        let mut message = kind.to_owned();
        message.append(" cleanup failed: ");
        message.append(join(errors, "; ").as_str());
        Err(Fault::new(message))
    }
}

/// Two failures in one message.
pub open spec fn both(first: FaultView, link: Seq<char>, second: FaultView) -> FaultView {
    general(first.message + link + second.message)
}

fn report_both(first: Fault, link: &str, second: Fault) -> (r: Fault)
    ensures
        r@ == both(first@, link@, second@),
{
    let mut message = first.message;
    message.append(link);
    message.append(second.message.as_str());
    Fault::new(message)
}

/// The result of two clean-ups: each failure is reported.
pub open spec fn both_cleaned(first: Checked, second: Checked) -> Checked {
    match (first, second) {
        (Ok(()), Ok(())) => Ok(()),
        (Err(e), Ok(())) => Err(e),
        (Ok(()), Err(e)) => Err(e),
        (Err(a), Err(b)) => Err(both(a, "; additional cleanup failure: "@, b)),
    }
}

/// The outcome of a result that carries nothing.
pub open spec fn checked(r: Result<(), Fault>) -> Checked {
    match r {
        Ok(()) => Ok(()),
        Err(f) => Err(f@),
    }
}

/// Combines two clean-ups.
pub fn combine_cleanups(first: Result<(), Fault>, second: Result<(), Fault>) -> (r: Result<
    (),
    Fault,
>)
    ensures
        agrees(r, both_cleaned(checked(first), checked(second))),
{
    match (first, second) {
        (Ok(()), Ok(())) => Ok(()),
        (Err(e), Ok(())) => Err(e),
        (Ok(()), Err(e)) => Err(e),
        (Err(a), Err(b)) => Err(report_both(a, "; additional cleanup failure: ", b)),
    }
}

/// The result of an operation and of the clean-up after it: success only where
/// both succeeded, and each failure is reported.
pub open spec fn with_cleanup(operation: Checked, cleanup: Checked) -> Checked {
    match (operation, cleanup) {
        (Ok(()), Ok(())) => Ok(()),
        (Err(e), Ok(())) => Err(e),
        (Ok(()), Err(e)) => Err(e),
        (Err(a), Err(b)) => Err(both(a, "; cleanup also failed: "@, b)),
    }
}

/// Combines an operation with the clean-up after it.
pub fn combine_operation_cleanup(
    operation: Result<(), Fault>,
    cleanup: Result<(), Fault>,
) -> (r: Result<(), Fault>)
    ensures
        agrees(r, with_cleanup(checked(operation), checked(cleanup))),
{
    match (operation, cleanup) {
        (Ok(()), Ok(())) => Ok(()),
        (Err(e), Ok(())) => Err(e),
        (Ok(()), Err(e)) => Err(e),
        (Err(a), Err(b)) => Err(report_both(a, "; cleanup also failed: ", b)),
    }
}

/// The outcome of a result that carries a text.
pub open spec fn reported(r: Result<String, Fault>) -> Result<Seq<char>, FaultView> {
    match r {
        Ok(s) => Ok(s@),
        Err(f) => Err(f@),
    }
}

/// The result of an operation that yields a text and of closing the session
/// after it.
pub open spec fn with_close(operation: Result<Seq<char>, FaultView>, close: Checked) -> Result<
    Seq<char>,
    FaultView,
> {
    match (operation, close) {
        (Ok(value), Ok(())) => Ok(value),
        (Err(e), Ok(())) => Err(e),
        (Ok(_), Err(e)) => Err(e),
        (Err(a), Err(b)) => Err(both(a, "; session close also failed: "@, b)),
    }
}

/// Combines an operation that yields a text with closing the session after it.
pub fn combine_string_operation_cleanup(
    operation: Result<String, Fault>,
    cleanup: Result<(), Fault>,
) -> (r: Result<String, Fault>)
    ensures
        agrees(r, with_close(reported(operation), checked(cleanup))),
{
    match (operation, cleanup) {
        (Ok(value), Ok(())) => Ok(value),
        (Err(e), Ok(())) => Err(e),
        (Ok(_), Err(e)) => Err(e),
        (Err(a), Err(b)) => Err(report_both(a, "; session close also failed: ", b)),
    }
}

/// A session that was given up serves no further request.
pub open spec fn valid_state(invalid: bool) -> Checked {
    if invalid {
        Err(general("RemoteDesktop backend is invalid; daemon is terminating"@))
    } else {
        Ok(())
    }
}

/// Refuses work once the session was given up.
pub fn ensure_valid_state(invalid: bool) -> (r: Result<(), Fault>)
    ensures
        agrees(r, valid_state(invalid)),
{
    if invalid {
        return Err(Fault::of("RemoteDesktop backend is invalid; daemon is terminating"));
    }
    Ok(())
}

/// An operation and the clean-ups after it succeed together exactly when none
/// of them failed.
pub proof fn law_no_failure_is_lost(operation: Checked, first: Checked, second: Checked)
    ensures
        with_cleanup(operation, both_cleaned(first, second)) is Ok <==> operation is Ok && first is Ok
            && second is Ok,
{
}

} // verus!
