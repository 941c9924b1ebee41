//! The HTTP side of the library: header fields, requests and how they are
//! parsed, responses and how they are written, and what a connection is
//! answered with.

pub mod headers;
pub mod request;
pub mod response;
pub mod theorems;

use request::{ParseError, Request};
use response::{wire_format, Response};
use vstd::prelude::*;

verus! {

/// What a connection gets back when its request could not be parsed: a bare
/// status line, without a line end.
pub const BAD_REQUEST: &'static str = "HTTP/1.1 400 BAD REQUEST";

/// What is written back on a connection: for a request that was parsed, the
/// wire format of the response that `handler` makes of it; for every parse
/// error alike, the fixed bad-request line.
pub fn answer<F: Fn(Request) -> Response>(parsed: Result<Request, ParseError>, handler: &F) -> (wire:
    String)
    requires
        parsed matches Ok(request) ==> handler.requires((request,)),
    ensures
        match parsed {
            Ok(request) => exists|response: Response|
                handler.ensures((request,), response) && wire@ == wire_format(response@),
            Err(_) => wire@ == BAD_REQUEST@,
        },
{
    match parsed {
        Ok(request) => {
            let response = handler(request);
            response.serialize()
        },
        Err(_) => BAD_REQUEST.to_owned(),
    }
}

} // verus!
