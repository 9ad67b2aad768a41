//! The decision at the heart of a page download: a fetched body is
//! returned unchanged exactly when the HTTP status is a success code;
//! any other status is an error carrying that code.  The network call
//! itself is made by the caller, which hands the status and body here.

use vstd::prelude::*;

verus! {

/// A failed fetch: the response carried a non-success status.
#[derive(Debug)]
pub struct FetchError {
    pub status: u16,
}

/// The 2xx range, which HTTP calls success.
pub open spec fn is_success_status(status: u16) -> bool {
    200 <= status && status < 300
}

/// Accept or reject a fetched response: the body comes back unchanged
/// on a success status, and the status is reported otherwise.
pub fn download_outcome(status: u16, body: String) -> (r: Result<String, FetchError>)
    ensures
        is_success_status(status) <==> r is Ok,
        r matches Ok(b) ==> b@ == body@,
        r matches Err(e) ==> e.status == status,
{
    if 200 <= status && status < 300 {
        Ok(body)
    } else {
        Err(FetchError { status })
    }
}

} // verus!
