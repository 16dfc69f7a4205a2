//! Text in bytes: what files and commands hand over.

use vstd::prelude::*;
use vstd::utf8::{decode_utf8, valid_utf8};

verus! {

/// What `std::str::Utf8Error` says of bytes that are not UTF-8.
pub uninterp spec fn utf8_complaint(bytes: Seq<u8>) -> Seq<char>;

/// What `String::from_utf8_lossy` makes of bytes.
pub uninterp spec fn lossy(bytes: Seq<u8>) -> Seq<char>;

/// `std::str::from_utf8` reads exactly the bytes that are valid UTF-8, as the text that they
/// encode. Of other bytes the error says something that depends on the bytes alone.
#[verifier::external_body]
pub(crate) fn decoded(bytes: &[u8]) -> (result: Result<String, String>)
    ensures
        result is Ok <==> valid_utf8(bytes@),
        match result {
            Ok(text) => text@ == decode_utf8(bytes@),
            Err(complaint) => complaint@ == utf8_complaint(bytes@),
        },
{
    match std::str::from_utf8(bytes) {
        Ok(text) => Ok(text.to_owned()),
        Err(error) => Err(error.to_string()),
    }
}

/// `String::from_utf8_lossy` gives a text that depends on the bytes alone; for valid UTF-8 it is
/// the text that the bytes encode.
#[verifier::external_body]
pub(crate) fn lossy_text(bytes: &[u8]) -> (result: String)
    ensures
        result@ == lossy(bytes@),
        valid_utf8(bytes@) ==> result@ == decode_utf8(bytes@),
{
    String::from_utf8_lossy(bytes).into_owned()
}

} // verus!
