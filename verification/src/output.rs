//! The structured result envelope every entry point reports through.
//! Rendering an envelope as JSON and printing it belong to the surrounding
//! program.
use vstd::prelude::*;

verus! {

/// A success-or-failure envelope: exactly one of `data` and `error` is set.
#[derive(Debug)]
pub struct JsonOutput<T> {
    pub success: bool,
    pub data: Option<T>,
    pub error: Option<String>,
}

impl<T> JsonOutput<T> {
    pub fn success(data: T) -> (r: Self)
        ensures
            r.success,
            r.data == Some(data),
            r.error is None,
    {
        JsonOutput { success: true, data: Some(data), error: None }
    }

    pub fn failure(error: String) -> (r: Self)
        ensures
            !r.success,
            r.data is None,
            r.error == Some(error),
    {
        JsonOutput { success: false, data: None, error: Some(error) }
    }
}

/// What one completed operation reports.
#[derive(Debug, Clone)]
pub struct OperationResult {
    pub operation: String,
    pub package: String,
    pub version: String,
    pub message: String,
}

} // verus!
