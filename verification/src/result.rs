//! A uniform result wrapper for the operations the library exposes.

use vstd::prelude::*;

verus! {

/// Carries either a success payload or an error message, together with a
/// `success` flag that always agrees with which of the two is present.
#[derive(Debug, PartialEq)]
pub struct CommandResult<T> {
    pub success: bool,
    pub data: Option<T>,
    pub error: Option<String>,
}

/// A well-formed result is successful with data and no error, or failed
/// with an error and no data.
pub open spec fn command_result_wf<T>(r: CommandResult<T>) -> bool {
    if r.success {
        r.data is Some && r.error is None
    } else {
        r.data is None && r.error is Some
    }
}

impl<T> CommandResult<T> {
    pub fn ok(data: T) -> (r: Self)
        ensures
            r.success,
            r.data == Some(data),
            r.error is None,
            command_result_wf(r),
    {
        Self { success: true, data: Some(data), error: None }
    }

    pub fn err(error: String) -> (r: Self)
        ensures
            !r.success,
            r.data is None,
            r.error == Some(error),
            command_result_wf(r),
    {
        Self { success: false, data: None, error: Some(error) }
    }
}

} // verus!
