//! Texts of the engine: bytes that are meant to be UTF-8.
use vstd::prelude::*;
use vstd::utf8::decode_utf8;
use vstd::utf8::valid_utf8;
use crate::error::Error;
use crate::error::string_convert_error;

verus! {

/// std's `Utf8Error`: why bytes are no UTF-8.
#[verifier::external_type_specification]
#[verifier::external_body]
pub struct ExUtf8Error(core::str::Utf8Error);

/// Calls `core::str::from_utf8`. Claimed of std: it answers with a text
/// exactly for the byte sequences that are UTF-8, and that text is the one
/// that the bytes encode.
#[verifier::external_body]
fn utf8_text(bytes: &[u8]) -> (res: Result<&str, core::str::Utf8Error>)
    ensures
        res is Ok <==> valid_utf8(bytes@),
        res matches Ok(text) ==> text@ == decode_utf8(bytes@),
{
    core::str::from_utf8(bytes)
}

/// What [`chars_to_string`] answers for the bytes `chars`.
pub open spec fn text_of(chars: Seq<u8>) -> Result<Seq<char>, crate::error::ErrorView> {
    if valid_utf8(chars) {
        Ok(decode_utf8(chars))
    } else {
        Err(string_convert_error())
    }
}

/// Reads the bytes of a text of the engine into `string`. Bytes that are no
/// UTF-8 give the conversion error and leave `string` as it was.
pub fn chars_to_string(chars: &[u8], string: &mut String) -> (res: Result<(), Error>)
    ensures
        match text_of(chars@) {
            Ok(text) => res is Ok && final(string)@ == text,
            Err(e) => res matches Err(err) && err@ == e && final(string)@ == old(string)@,
        },
{
    match utf8_text(chars) {
        Ok(text) => {
            *string = text.to_owned();
            Ok(())
        },
        Err(_) => Err(Error::string_convert_error()),
    }
}

} // verus!
