//! The response writer: formats the status line, headers and body of a
//! response, or a redirect, as the bytes to put on the wire. The header
//! text is built as characters and encoded; the body bytes follow as they
//! are, so no byte sequence is ever reinterpreted as text.

use crate::text::{dec_str, u64_to_string};
use vstd::prelude::*;
use vstd::string::*;
use vstd::utf8::encode_utf8;

verus! {

/// The header text of an ordinary response: status line, content length,
/// content type, and the open cross-origin header, ended by a blank line.
pub open spec fn spec_response_head(
    status: int,
    content_type: Seq<char>,
    body_len: nat,
) -> Seq<char> {
    "HTTP/1.1 "@ + dec_str(status as nat) + " OK\r\nContent-Length: "@ + dec_str(body_len)
        + "\r\nContent-Type: "@ + content_type + "\r\nAccess-Control-Allow-Origin: *\r\n\r\n"@
}

/// The bytes of an ordinary response: the encoded header text, then the
/// body bytes unchanged.
pub open spec fn spec_response_bytes(
    status: int,
    content_type: Seq<char>,
    body: Seq<u8>,
) -> Seq<u8> {
    encode_utf8(spec_response_head(status, content_type, body.len())) + body
}

/// The bytes of a redirect response: only a `Location` header, no body.
pub open spec fn spec_redirect_bytes(location: Seq<char>) -> Seq<u8> {
    encode_utf8("HTTP/1.1 307 OK\r\nLocation: "@ + location + "\r\n\r\n"@)
}

/// Formats an ordinary response onto the wire.
pub fn format_response(status_code: i32, content_type: &str, contents: &Vec<u8>) -> (r: Vec<u8>)
    requires
        0 <= status_code,
    ensures
        r@ == spec_response_bytes(status_code as int, content_type@, contents@),
{
    let mut head = String::from_str("HTTP/1.1 ");
    let code = u64_to_string(status_code as u64);
    head.append(code.as_str());
    head.append(" OK\r\nContent-Length: ");
    let len = u64_to_string(contents.len() as u64);
    head.append(len.as_str());
    head.append("\r\nContent-Type: ");
    head.append(content_type);
    head.append("\r\nAccess-Control-Allow-Origin: *\r\n\r\n");
    proof {
        assert(head@ =~= spec_response_head(
            status_code as int,
            content_type@,
            contents@.len() as nat,
        ));
    }
    let mut out = head.as_str().as_bytes_vec();
    out.extend_from_slice(contents.as_slice());
    proof {
        assert(out@ =~= spec_response_bytes(status_code as int, content_type@, contents@));
    }
    out
}

/// Formats a redirect response onto the wire.
pub fn format_redirect(location: &str) -> (r: Vec<u8>)
    ensures
        r@ == spec_redirect_bytes(location@),
{
    let mut head = String::from_str("HTTP/1.1 307 OK\r\nLocation: ");
    head.append(location);
    head.append("\r\n\r\n");
    proof {
        assert(head@ =~= "HTTP/1.1 307 OK\r\nLocation: "@ + location@ + "\r\n\r\n"@);
    }
    head.as_str().as_bytes_vec()
}

/// The body of an error response: the message, a line break, and the
/// diagnostic detail.
pub fn error_body(message: &str, detail: &str) -> (r: Vec<u8>)
    ensures
        r@ == encode_utf8(message@ + "\n"@ + detail@),
{
    let mut body = String::new();
    body.append(message);
    body.append("\n");
    body.append(detail);
    proof {
        assert(body@ =~= message@ + "\n"@ + detail@);
    }
    body.as_str().as_bytes_vec()
}

} // verus!
