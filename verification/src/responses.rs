//! The error that each engine response may carry.
use vstd::prelude::*;

verus! {

/// The error part of an engine response: code zero means success.
#[derive(Clone, PartialEq, Debug)]
pub struct ResponseError {
    pub code: i32,
    pub description: String,
}

/// Whether a response failed: it carries an error with a code other than
/// zero.
pub open spec fn response_failed(error: Option<ResponseError>) -> bool {
    match error {
        Some(e) => e.code != 0,
        None => false,
    }
}

/// Accepts a response whose error is missing or has code zero, and refuses
/// one with any other code, handing its error back.
pub fn check_response(error: Option<ResponseError>) -> (r: Result<(), ResponseError>)
    ensures
        response_failed(error) <==> r is Err,
        r matches Err(e) ==> error == Some(e),
{
    match error {
        Some(e) => {
            if e.code != 0 {
                Err(e)
            } else {
                Ok(())
            }
        },
        None => Ok(()),
    }
}

} // verus!
