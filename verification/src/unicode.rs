//! Text in bytes, and case folding, as the standard library provides them.

use vstd::prelude::*;
use vstd::slice::slice_to_vec;
use vstd::string::StringSliceAdditionalSpecFns;
use vstd::utf8::{decode_utf8, encode_utf8, encode_utf8_decode_utf8, valid_utf8};

verus! {

/// `std::str::from_utf8`: the text that `bytes` hold, where they are UTF-8.
/// The text has the very bytes that were handed in.
#[verifier::external_body]
pub(crate) fn as_text(bytes: &[u8]) -> (r: Option<&str>)
    ensures
        r is Some <==> valid_utf8(bytes@),
        r matches Some(text) ==> text.spec_bytes() == bytes@,
{
    std::str::from_utf8(bytes).ok()
}

/// The lower-case form of a text.
pub uninterp spec fn lowercase_text(text: Seq<char>) -> Seq<char>;

/// The upper-case form of a text.
pub uninterp spec fn uppercase_text(text: Seq<char>) -> Seq<char>;

/// `str::to_lowercase`: the lower-case form of `text`, which depends on the
/// text alone.
#[verifier::external_body]
fn lower_text(text: &str) -> (r: String)
    ensures
        r@ == lowercase_text(text@),
{
    text.to_lowercase()
}

/// `str::to_uppercase`: the upper-case form of `text`, which depends on the
/// text alone.
#[verifier::external_body]
fn upper_text(text: &str) -> (r: String)
    ensures
        r@ == uppercase_text(text@),
{
    text.to_uppercase()
}

/// The lower-case form of the text that `s` holds. Bytes that are not UTF-8
/// stand for themselves.
pub closed spec fn lowercase(s: Seq<u8>) -> Seq<u8> {
    if valid_utf8(s) {
        encode_utf8(lowercase_text(decode_utf8(s)))
    } else {
        s
    }
}

/// The upper-case form of the text that `s` holds. Bytes that are not UTF-8
/// stand for themselves.
pub closed spec fn uppercase(s: Seq<u8>) -> Seq<u8> {
    if valid_utf8(s) {
        encode_utf8(uppercase_text(decode_utf8(s)))
    } else {
        s
    }
}

/// Puts the text that `s` holds in lower case. Bytes that are not UTF-8 are
/// handed back as they are.
pub fn to_lowercase(s: &[u8]) -> (r: Vec<u8>)
    ensures
        r@ == lowercase(s@),
{
    match as_text(s) {
        Some(text) => {
            let lower = lower_text(text);
            proof {
                encode_utf8_decode_utf8(text@);
            }
            slice_to_vec(lower.as_str().as_bytes())
        },
        None => slice_to_vec(s),
    }
}

/// Puts the text that `s` holds in upper case. Bytes that are not UTF-8 are
/// handed back as they are.
pub fn to_uppercase(s: &[u8]) -> (r: Vec<u8>)
    ensures
        r@ == uppercase(s@),
{
    match as_text(s) {
        Some(text) => {
            let upper = upper_text(text);
            proof {
                encode_utf8_decode_utf8(text@);
            }
            slice_to_vec(upper.as_str().as_bytes())
        },
        None => slice_to_vec(s),
    }
}

} // verus!
