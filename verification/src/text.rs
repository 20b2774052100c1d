//! Text that crosses an encoding: UTF-8 read strictly or lossily, and GBK,
//! the encoding of the transport's own texts. The conversions themselves
//! are the work of `std` and of the `encoding` crate; what is claimed of
//! them here is believed, not proved.
use vstd::prelude::*;
use vstd::utf8::{decode_utf8, valid_utf8};
use encoding::Encoding;

verus! {

/// What lossy UTF-8 decoding makes of a byte string.
pub uninterp spec fn utf8_lossy(bytes: Seq<u8>) -> Seq<char>;

/// `String::from_utf8_lossy`, made an owned `String`: the text that the
/// bytes decode to, with U+FFFD in place of every invalid sequence. Bytes
/// that are valid UTF-8 decode to exactly the text they encode.
#[verifier::external_body]
pub(crate) fn lossy_string(bytes: &[u8]) -> (r: String)
    ensures
        r@ == utf8_lossy(bytes@),
        valid_utf8(bytes@) ==> r@ == decode_utf8(bytes@),
{
    String::from_utf8_lossy(bytes).into_owned()
}

/// What the bytes say as GBK text, if they are GBK text.
pub uninterp spec fn gbk_text(bytes: Seq<u8>) -> Option<Seq<char>>;

/// What the text is in GBK, if GBK has all its characters.
pub uninterp spec fn gbk_bytes(text: Seq<char>) -> Option<Seq<u8>>;

/// `Encoding::decode` of `encoding::all::GBK` with `DecoderTrap::Strict`:
/// the text that the bytes stand for, or nothing where some byte sequence
/// stands for no character.
#[verifier::external_body]
pub(crate) fn gbk_decode(bytes: &[u8]) -> (r: Option<String>)
    ensures
        (r is Some) == (gbk_text(bytes@) is Some),
        r is Some ==> r->Some_0@ == gbk_text(bytes@)->Some_0,
{
    encoding::all::GBK.decode(bytes, encoding::DecoderTrap::Strict).ok()
}

/// `Encoding::encode` of `encoding::all::GBK` with `EncoderTrap::Strict`:
/// the bytes of the text in GBK, or nothing where GBK lacks a character.
#[verifier::external_body]
pub(crate) fn gbk_encode(text: &str) -> (r: Option<Vec<u8>>)
    ensures
        (r is Some) == (gbk_bytes(text@) is Some),
        r is Some ==> r->Some_0@ == gbk_bytes(text@)->Some_0,
{
    encoding::all::GBK.encode(text, encoding::EncoderTrap::Strict).ok()
}

/// `String::from_utf8`: the text that the bytes encode, where they are
/// valid UTF-8, and nothing where they are not.
#[verifier::external_body]
pub(crate) fn utf8_string(bytes: &[u8]) -> (r: Option<String>)
    ensures
        (r is Some) == valid_utf8(bytes@),
        r is Some ==> r->Some_0@ == decode_utf8(bytes@),
{
    String::from_utf8(bytes.to_vec()).ok()
}

} // verus!
