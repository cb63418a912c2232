//! Annotation of inbound channel data.
//!
//! Inbound bytes are decoded as text (invalid sequences replaced, never
//! rejected) and wrapped with a fixed prefix and a trailing line break; the
//! result is echoed on the originating channel and broadcast to every other
//! connection's channels.

use vstd::prelude::*;
use vstd::string::StringExecFns;

verus! {

/// The characters that lossy UTF-8 decoding yields for a byte sequence.
pub uninterp spec fn lossy_chars(b: Seq<u8>) -> Seq<char>;

/// The full annotated payload for inbound bytes `b`: a fixed prefix, the
/// lossily decoded text, and a trailing CRLF.
pub open spec fn annotated_payload(b: Seq<u8>) -> Seq<char> {
    "Got data: "@ + lossy_chars(b) + "\r\n"@
}

/// Relies on `String::from_utf8_lossy`: the decoding is a pure function of
/// the bytes, and bytes that are valid UTF-8 (in particular, pure ASCII)
/// decode to themselves with no replacements.
#[verifier::external_body]
fn lossy_decode(data: &[u8]) -> (r: String)
    ensures
        r@ == lossy_chars(data@),
        (forall|i: int| 0 <= i < data@.len() ==> data@[i] < 128) ==> r@ == data@.map(
            |i: int, b: u8| b as char,
        ),
{
    String::from_utf8_lossy(data).into_owned()
}

/// Wraps inbound bytes with the fixed annotation: `"Got data: "`, the bytes
/// decoded as text with invalid sequences replaced, then `"\r\n"`.
pub fn annotate_data(data: &[u8]) -> (r: String)
    ensures
        r@ == annotated_payload(data@),
{
    let mut s = "Got data: ".to_owned();
    let decoded = lossy_decode(data);
    s.append(decoded.as_str());
    s.append("\r\n");
    proof {
        assert(s@ =~= annotated_payload(data@));
    }
    s
}

} // verus!
