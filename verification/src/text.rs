use vstd::prelude::*;

verus! {

/// Relies on `str::from_utf8`: it accepts exactly the byte sequences
/// that are valid UTF-8, and yields the characters those bytes encode.
#[verifier::external_body]
pub fn bytes_to_string(b: &[u8]) -> (r: Option<String>)
    ensures
        r is Some <==> vstd::utf8::valid_utf8(b@),
        r matches Some(s) ==> s@ == vstd::utf8::decode_utf8(b@),
{
    match core::str::from_utf8(b) {
        Ok(s) => Some(s.to_string()),
        Err(_) => None,
    }
}

/// Relies on `String::from_utf8_lossy`: on valid UTF-8 it yields
/// exactly the characters the bytes encode; on invalid input it
/// substitutes replacement characters, of which nothing is promised.
#[verifier::external_body]
pub fn bytes_to_string_lossy(b: &[u8]) -> (r: String)
    ensures
        vstd::utf8::valid_utf8(b@) ==> r@ == vstd::utf8::decode_utf8(b@),
{
    String::from_utf8_lossy(b).to_string()
}

} // verus!
