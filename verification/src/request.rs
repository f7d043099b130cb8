//! The text of a range request.

use vstd::prelude::*;
use vstd::string::StringSliceAdditionalSpecFns;
use crate::decimal::{decimal, push_decimal};

verus! {

/// The request for the bytes `start` to `end`, both included, of the
/// resource `/` on `host`: the request line, the headers `Accept`, `Host`
/// and `Range`, and the blank line that ends them.
pub open spec fn request_text(host: Seq<u8>, start: nat, end: nat) -> Seq<u8> {
    "GET / HTTP/1.1\r\nAccept: */*\r\nHost: ".spec_bytes() + host
        + "\r\nRange: bytes=".spec_bytes() + decimal(start) + "-".spec_bytes() + decimal(end)
        + "\r\n\r\n".spec_bytes()
}

/// Appends `text` to `out`.
fn push_text(out: &mut Vec<u8>, text: &[u8])
    ensures
        final(out)@ == old(out)@ + text@,
{
    let len: usize = text.len();
    let mut i: usize = 0;
    while i < len
        invariant
            len == text@.len(),
            i <= len,
            out@ == old(out)@ + text@.take(i as int),
        decreases len - i,
    {
        out.push(text[i]);
        i += 1;
        assert(out@ =~= old(out)@ + text@.take(i as int));
    }
    assert(text@.take(len as int) =~= text@);
}

/// Builds the request for the bytes `range_start` to `range_end` of the
/// resource `/` on `host`.
pub fn build_request(host: &str, range_start: usize, range_end: usize) -> (request: Vec<u8>)
    ensures
        request@ == request_text(host.spec_bytes(), range_start as nat, range_end as nat),
{
    let mut request: Vec<u8> = Vec::new();
    push_text(&mut request, "GET / HTTP/1.1\r\nAccept: */*\r\nHost: ".as_bytes());
    push_text(&mut request, host.as_bytes());
    push_text(&mut request, "\r\nRange: bytes=".as_bytes());
    push_decimal(&mut request, range_start);
    push_text(&mut request, "-".as_bytes());
    push_decimal(&mut request, range_end);
    push_text(&mut request, "\r\n\r\n".as_bytes());
    request
}

} // verus!
