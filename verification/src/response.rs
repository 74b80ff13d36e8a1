//! The response writer's verified core: the status-line table and the
//! rendering of a full response onto text, with the exact byte length of
//! the body in `Content-Length`.
use crate::numbers::{spec_dec, u64_to_dec};
use vstd::prelude::*;

verus! {

broadcast use vstd::slice::axiom_spec_len;

/// Failure while sending a rendered response.
#[derive(Debug, PartialEq, Eq, Structural, Clone, Copy)]
pub enum ResponseError {
    /// Writing the response onto the connection failed.
    WriteErr,
    /// Flushing the connection after the write failed.
    FlushErr,
}

impl ResponseError {
    /// A short description of the error, for logging.
    pub fn message(&self) -> (r: String)
        ensures
            r@ == match self {
                ResponseError::WriteErr => "error writing response"@,
                ResponseError::FlushErr => "error flushing response"@,
            },
            r@.len() > 0,
    {
        let m = match self {
            ResponseError::WriteErr => String::from_str("error writing response"),
            ResponseError::FlushErr => String::from_str("error flushing response"),
        };
        proof {
            reveal_strlit("error writing response");
            reveal_strlit("error flushing response");
        }
        m
    }
}

/// The canonical status line for `code`: one of the five recognized
/// codes, and the not-found line for every other code.
pub open spec fn spec_status_line(code: u64) -> Seq<char> {
    if code == 200 {
        "HTTP/1.1 200 OK"@
    } else if code == 400 {
        "HTTP/1.1 400 Bad Request"@
    } else if code == 401 {
        "HTTP/1.1 401 Unauthorized"@
    } else if code == 403 {
        "HTTP/1.1 403 Forbidden"@
    } else if code == 500 {
        "HTTP/1.1 500 Internal Server Error"@
    } else {
        "HTTP/1.1 404 Not Found"@
    }
}

/// The canonical status line for `code`; an unrecognized code maps to
/// the not-found line, by design.
pub fn status_line(code: u64) -> (r: String)
    ensures
        r@ == spec_status_line(code),
{
    if code == 200 {
        String::from_str("HTTP/1.1 200 OK")
    } else if code == 400 {
        String::from_str("HTTP/1.1 400 Bad Request")
    } else if code == 401 {
        String::from_str("HTTP/1.1 401 Unauthorized")
    } else if code == 403 {
        String::from_str("HTTP/1.1 403 Forbidden")
    } else if code == 500 {
        String::from_str("HTTP/1.1 500 Internal Server Error")
    } else {
        String::from_str("HTTP/1.1 404 Not Found")
    }
}

/// The full response text for a body, a content type and a status code:
/// status line, `Content-Type`, `Content-Length` holding the body's
/// exact byte length, a blank line, then the body.
pub open spec fn spec_response(body: Seq<char>, content_type: Seq<char>, code: u64) -> Seq<char> {
    spec_status_line(code) + "\r\nContent-Type: "@ + content_type + "\r\nContent-Length: "@
        + spec_dec(vstd::utf8::encode_utf8(body).len() as int) + "\r\n\r\n"@ + body
}

/// Mathematical content of a response under construction.
pub struct RespView {
    pub content: Seq<char>,
    pub content_type: Seq<char>,
}

/// A response under construction: its body and its content type.
pub struct Response {
    content: String,
    content_type: String,
}

impl View for Response {
    type V = RespView;

    closed spec fn view(&self) -> RespView {
        RespView { content: self.content@, content_type: self.content_type@ }
    }
}

impl Response {
    /// A response carrying the given body and content type.
    pub fn new(content: String, content_type: String) -> (r: Response)
        ensures
            r@.content == content@,
            r@.content_type == content_type@,
    {
        Response { content, content_type }
    }

    /// Render the response under the given status code.
    pub fn render(&self, code: u64) -> (r: String)
        ensures
            r@ == spec_response(self@.content, self@.content_type, code),
    {
        let len = self.content.as_str().as_bytes().len();
        let len_text = u64_to_dec(len as u64);
        let mut out = status_line(code);
        out.append("\r\nContent-Type: ");
        out.append(self.content_type.as_str());
        out.append("\r\nContent-Length: ");
        out.append(len_text.as_str());
        out.append("\r\n\r\n");
        out.append(self.content.as_str());
        proof {
            assert(out@ =~= spec_response(self@.content, self@.content_type, code));
        }
        out
    }
}

} // verus!
