use vstd::prelude::*;

verus! {

/// The body of an error reply: the error's text.
#[derive(Debug)]
pub struct ErrorResponse {
    pub message: String,
}

impl ErrorResponse {
    pub fn new(error: String) -> (r: ErrorResponse)
        ensures
            r.message@ == error@,
    {
        ErrorResponse { message: error }
    }
}

} // verus!
