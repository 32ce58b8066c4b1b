//! Text encodings: the calls into `encoding_rs` and into std's UTF-8 check.

use vstd::prelude::*;

verus! {

/// The text encodings that timesheet files use.
#[derive(Debug, Clone, Copy, PartialEq, Eq, Structural)]
pub enum TextEncoding {
    /// UTF-8
    Utf8,
    /// GBK (GB2312)
    Gbk,
    /// Shift-JIS
    ShiftJis,
}

/// What `encoding_rs::Encoding::decode` returns for `bytes` in `encoding`:
/// the decoded characters (malformed input replaced, a byte order mark honoured) and
/// whether any malformed sequence was met.
pub uninterp spec fn encoding_decode(encoding: TextEncoding, bytes: Seq<u8>) -> (Seq<char>, bool);

/// What `encoding_rs::Encoding::encode` returns for `text` in `encoding`:
/// the encoded bytes (unmappable characters written as numeric character references).
pub uninterp spec fn encoding_encode(encoding: TextEncoding, text: Seq<char>) -> Seq<u8>;

/// Calls `encoding_rs::Encoding::decode` (`UTF_8`, `GBK` or `SHIFT_JIS`) on `bytes`;
/// the contract claims only that the result is what that call returns
/// (its text and its "had errors" flag).
#[verifier::external_body]
pub(crate) fn decode_bytes(encoding: TextEncoding, bytes: &[u8]) -> (r: (String, bool))
    ensures
        (r.0@, r.1) == encoding_decode(encoding, bytes@),
{
    let enc = match encoding {
        TextEncoding::Utf8 => encoding_rs::UTF_8,
        TextEncoding::Gbk => encoding_rs::GBK,
        TextEncoding::ShiftJis => encoding_rs::SHIFT_JIS,
    };
    let (text, _, had_errors) = enc.decode(bytes);
    (text.into_owned(), had_errors)
}

/// Calls `encoding_rs::Encoding::encode` (`UTF_8`, `GBK` or `SHIFT_JIS`) on `text`;
/// the contract claims only that the bytes are what that call returns.
#[verifier::external_body]
pub(crate) fn encode_text(encoding: TextEncoding, text: &str) -> (r: Vec<u8>)
    ensures
        r@ == encoding_encode(encoding, text@),
{
    let enc = match encoding {
        TextEncoding::Utf8 => encoding_rs::UTF_8,
        TextEncoding::Gbk => encoding_rs::GBK,
        TextEncoding::ShiftJis => encoding_rs::SHIFT_JIS,
    };
    let (bytes, _, _) = enc.encode(text);
    bytes.into_owned()
}

/// Calls `std::str::from_utf8`, which fails exactly when `bytes` are not valid UTF-8;
/// the contract claims that the result is `true` exactly for valid UTF-8.
#[verifier::external_body]
pub(crate) fn is_valid_utf8(bytes: &[u8]) -> (b: bool)
    ensures
        b == vstd::utf8::valid_utf8(bytes@),
{
    std::str::from_utf8(bytes).is_ok()
}

} // verus!
