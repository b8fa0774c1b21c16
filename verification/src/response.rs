//! The answers that the proxies give without asking a site.

use vstd::prelude::*;

verus! {

pub const OK_RESPONSE: &'static str = "HTTP/1.1 200 OK\r\n\r\n";

pub const BAD_REQUEST_RESPONSE: &'static str = "HTTP/1.1 400 Bad Request\r\n\r\n";

pub const NOT_FOUND_RESPONSE: &'static str = "HTTP/1.1 404 Not Found\r\n\r\n";

pub const METHOD_NOT_ALLOWED_RESPONSE: &'static str = "HTTP/1.1 405 Method Not Allowed\r\n\r\n";

pub const INTERNAL_SERVER_ERROR_RESPONSE: &'static str =
    "HTTP/1.1 500 Internal Server Error\r\n\r\n";

pub const NOT_IMPLEMENTED_RESPONSE: &'static str = "HTTP/1.1 501 Not Implemented\r\n\r\n";

} // verus!
