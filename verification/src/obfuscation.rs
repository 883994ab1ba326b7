//! The light obfuscation of stored passwords: the UTF-8 bytes of a password written in
//! standard base64 with padding, and read back from it.

use vstd::prelude::*;
use vstd::string::StringExecFns;
use vstd::utf8::{decode_utf8, encode_utf8, encode_utf8_decode_utf8, encode_utf8_valid_utf8, valid_utf8};
use base64::Engine;

verus! {

#[verifier::external_type_specification]
#[verifier::external_body]
pub struct ExDecodeError(base64::DecodeError);

#[verifier::external_type_specification]
#[verifier::external_body]
pub struct ExFromUtf8Error(std::string::FromUtf8Error);

/// The text that the standard base64 engine with padding encodes `data` as.
pub uninterp spec fn base64_encoding(data: Seq<u8>) -> Seq<char>;

/// The bytes that the standard base64 engine with padding decodes `text` into, or `None`
/// where it refuses `text`.
pub uninterp spec fn base64_decoding(text: Seq<u8>) -> Option<Seq<u8>>;

/// The length of the base64 text of `n` bytes, with padding, fits in a `usize`.
pub open spec fn encodable_len(n: nat) -> bool {
    4 * ((n + 2) / 3) <= usize::MAX
}

/// `Engine::encode` of `base64::engine::general_purpose::STANDARD`. Claimed: the result is
/// the named encoding of `data`, has the padded length `encoded_len` documents, and the
/// same engine decodes its bytes back into `data`. `encode` panics where that length
/// overflows a `usize`, hence the `requires`.
#[verifier::external_body]
fn base64_encode(data: &[u8]) -> (res: String)
    requires
        encodable_len(data@.len()),
    ensures
        res@ == base64_encoding(data@),
        res@.len() == 4 * ((data@.len() + 2) / 3),
        base64_decoding(encode_utf8(res@)) == Some(data@),
{
    base64::engine::general_purpose::STANDARD.encode(data)
}

/// `Engine::decode` of `base64::engine::general_purpose::STANDARD`. Claimed: `Ok` holds
/// the named decoding of `text`, and `Err` comes exactly where that decoding is `None`.
#[verifier::external_body]
fn base64_decode(text: &[u8]) -> (res: Result<Vec<u8>, base64::DecodeError>)
    ensures
        match res {
            Ok(v) => base64_decoding(text@) == Some(v@),
            Err(_) => base64_decoding(text@) is None,
        },
{
    base64::engine::general_purpose::STANDARD.decode(text)
}

/// The `Display` text of a `base64::DecodeError`; nothing is claimed of it.
#[verifier::external_body]
fn base64_error_text(e: &base64::DecodeError) -> String {
    format!("{}", e)
}

/// `String::from_utf8`. Claimed, as std documents: `Ok` exactly where `bytes` are valid
/// UTF-8, and then the string holds the characters those bytes encode.
#[verifier::external_body]
fn utf8_string(bytes: Vec<u8>) -> (res: Result<String, std::string::FromUtf8Error>)
    ensures
        match res {
            Ok(s) => valid_utf8(bytes@) && s@ == decode_utf8(bytes@),
            Err(_) => !valid_utf8(bytes@),
        },
{
    String::from_utf8(bytes)
}

/// The `Display` text of a `FromUtf8Error`; nothing is claimed of it.
#[verifier::external_body]
fn utf8_error_text(e: &std::string::FromUtf8Error) -> String {
    format!("{}", e)
}

/// The stored form of the text `s`.
pub open spec fn obfuscated(s: Seq<char>) -> Seq<char> {
    base64_encoding(encode_utf8(s))
}

/// The text whose stored form is `text`, if `text` is one.
pub open spec fn revealed(text: Seq<char>) -> Option<Seq<char>> {
    match base64_decoding(encode_utf8(text)) {
        Some(b) => if valid_utf8(b) {
            Some(decode_utf8(b))
        } else {
            None
        },
        None => None,
    }
}

/// `m` is `prefix` followed by some detail.
pub open spec fn message_with(m: Seq<char>, prefix: Seq<char>) -> bool {
    prefix.len() <= m.len() && m.take(prefix.len() as int) == prefix
}

/// `prefix` followed by `detail`.
fn prefixed(prefix: &str, detail: String) -> (res: String)
    ensures
        res@ == prefix@ + detail@,
        message_with(res@, prefix@),
{
    let mut m = String::from_str(prefix);
    m.append(detail.as_str());
    assert((prefix@ + detail@).take(prefix@.len() as int) =~= prefix@);
    m
}

/// The stored form of `data`; reading it back gives `data` again.
pub fn obfuscate(data: &str) -> (res: String)
    requires
        encodable_len(encode_utf8(data@).len()),
    ensures
        res@ == obfuscated(data@),
        revealed(res@) == Some(data@),
{
    let bytes = data.as_bytes();
    let res = base64_encode(bytes);
    proof {
        encode_utf8_valid_utf8(data@);
        encode_utf8_decode_utf8(data@);
    }
    res
}

/// The text whose stored form is `data`; an error, with the reason, where `data` is not
/// base64 or does not decode to UTF-8.
pub fn deobfuscate(data: &str) -> (res: Result<String, String>)
    ensures
        match res {
            Ok(s) => revealed(data@) == Some(s@),
            Err(m) => revealed(data@) is None && match base64_decoding(encode_utf8(data@)) {
                None => message_with(m@, "解码失败: "@),
                Some(_) => message_with(m@, "转换字符串失败: "@),
            },
        },
{
    let bytes = match base64_decode(data.as_bytes()) {
        Ok(b) => b,
        Err(e) => {
            return Err(prefixed("解码失败: ", base64_error_text(&e)));
        },
    };
    match utf8_string(bytes) {
        Ok(s) => Ok(s),
        Err(e) => Err(prefixed("转换字符串失败: ", utf8_error_text(&e))),
    }
}

} // verus!
