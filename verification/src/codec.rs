//! Text forms of binary values: base64, UUIDs, UTF-8, and the host of a URL.

use vstd::prelude::*;
use vstd::utf8::*;

use crate::text;

verus! {

/// A UUID as a number, most significant byte first in its text.
pub type Uuid = u128;

// --------------------------------------------------------------------- SHA-256

/// The SHA-256 digest of a byte string.
pub uninterp spec fn sha256(data: Seq<u8>) -> Seq<u8>;

/// Calls `sha2::Sha256::digest`: 32 bytes, a function of the input.
#[verifier::external_body]
pub(crate) fn sha256_digest(data: &[u8]) -> (r: [u8; 32])
    ensures
        r@ == sha256(data@),
{
    <sha2::Sha256 as sha2::Digest>::digest(data).into()
}

// ---------------------------------------------------------------------- base64

/// Standard base64 with padding.
pub uninterp spec fn base64_of(data: Seq<u8>) -> Seq<char>;

/// What standard base64 with padding decodes to; what is wrong with the text
/// where it is malformed.
pub uninterp spec fn base64_decoded(text: Seq<char>) -> Result<Seq<u8>, Seq<char>>;

/// Calls `base64::engine::general_purpose::STANDARD.encode`. The text is a
/// function of the bytes, and the same engine decodes it to them again. The
/// bound keeps the length of the text within the address space.
#[verifier::external_body]
fn base64_encode(data: &[u8]) -> (r: String)
    requires
        data@.len() <= usize::MAX / 8 * 3,
    ensures
        r@ == base64_of(data@),
        base64_decoded(r@) is Ok && base64_decoded(r@)->Ok_0 == data@,
{
    base64::Engine::encode(&base64::engine::general_purpose::STANDARD, data)
}

/// Calls `base64::engine::general_purpose::STANDARD.decode`; an error is given
/// as its text. The outcome is a function of the input.
#[verifier::external_body]
fn base64_decode(text: &str) -> (r: Result<Vec<u8>, String>)
    ensures
        r is Ok <==> base64_decoded(text@) is Ok,
        r is Ok ==> r->Ok_0@ == base64_decoded(text@)->Ok_0,
        r is Err ==> r->Err_0@ == base64_decoded(text@)->Err_0,
{
    base64::Engine::decode(&base64::engine::general_purpose::STANDARD, text).map_err(|e| e.to_string())
}

/// Standard base64 with padding, no line breaks and no URL-safe variant.
pub fn b64_encode(bytes: &[u8]) -> (r: String)
    requires
        bytes@.len() <= usize::MAX / 8 * 3,
    ensures
        r@ == base64_of(bytes@),
        base64_decoded(r@) is Ok && base64_decoded(r@)->Ok_0 == bytes@,
{
    base64_encode(bytes)
}

/// Decodes standard base64 with padding.
pub fn b64_decode(text: &str) -> (r: Result<Vec<u8>, String>)
    ensures
        r is Ok <==> base64_decoded(text@) is Ok,
        r is Ok ==> r->Ok_0@ == base64_decoded(text@)->Ok_0,
        r is Err ==> r->Err_0@ == base64_decoded(text@)->Err_0,
{
    base64_decode(text)
}

// ----------------------------------------------------------------------- UTF-8

/// What is wrong with bytes that are not UTF-8.
pub uninterp spec fn utf8_fault(bytes: Seq<u8>) -> Seq<char>;

/// Calls `String::from_utf8`, which gives the text exactly for well-formed
/// UTF-8; an error is given as its text, which is a function of the bytes.
#[verifier::external_body]
fn string_from_utf8(bytes: Vec<u8>) -> (r: Result<String, String>)
    ensures
        r is Ok <==> valid_utf8(bytes@),
        r is Ok ==> r->Ok_0@ == decode_utf8(bytes@),
        r is Err ==> r->Err_0@ == utf8_fault(bytes@),
{
    String::from_utf8(bytes).map_err(|e| e.to_string())
}

/// Reads bytes as text.
pub fn text_from_utf8(bytes: Vec<u8>) -> (r: Result<String, String>)
    ensures
        r is Ok <==> valid_utf8(bytes@),
        r is Ok ==> r->Ok_0@ == decode_utf8(bytes@),
        r is Err ==> r->Err_0@ == utf8_fault(bytes@),
{
    string_from_utf8(bytes)
}

/// The bytes of a text.
pub fn utf8_bytes(s: &str) -> (r: Vec<u8>)
    ensures
        r@ == encode_utf8(s@),
{
    vstd::slice::slice_to_vec(s.as_bytes())
}

/// Text written as UTF-8 reads back as it was.
pub proof fn utf8_reads_back(s: Seq<char>)
    ensures
        valid_utf8(encode_utf8(s)),
        decode_utf8(encode_utf8(s)) == s,
{
    encode_utf8_valid_utf8(s);
    encode_utf8_decode_utf8(s);
}

// ----------------------------------------------------------------------- UUIDs

/// The lowest `n` hexadecimal digits of a number, most significant first.
pub open spec fn low_hex(u: nat, n: nat) -> Seq<char>
    decreases n,
{
    if n == 0 {
        Seq::empty()
    } else {
        low_hex(u / 16, (n - 1) as nat).push(text::hex_digit(u as int % 16))
    }
}

/// The hyphenated lowercase form of a UUID.
pub open spec fn uuid_text(u: Uuid) -> Seq<char> {
    let h = low_hex(u as nat, 32);
    h.subrange(0, 8) + seq!['-'] + h.subrange(8, 12) + seq!['-'] + h.subrange(12, 16) + seq!['-']
        + h.subrange(16, 20) + seq!['-'] + h.subrange(20, 32)
}

/// What a UUID's text parses to; what is wrong with it where it is not one.
pub uninterp spec fn uuid_parsed(text: Seq<char>) -> Result<Uuid, Seq<char>>;

/// Calls `uuid::Uuid::from_u128` and `to_string`: the hyphenated lowercase
/// form, which `uuid::Uuid::parse_str` reads back.
#[verifier::external_body]
fn uuid_format(u: Uuid) -> (r: String)
    ensures
        r@ == uuid_text(u),
        uuid_parsed(r@) is Ok && uuid_parsed(r@)->Ok_0 == u,
{
    uuid::Uuid::from_u128(u).to_string()
}

/// Calls `uuid::Uuid::parse_str`; an error is given as its text. The outcome is
/// a function of the input.
#[verifier::external_body]
fn uuid_parse(text: &str) -> (r: Result<Uuid, String>)
    ensures
        r is Ok <==> uuid_parsed(text@) is Ok,
        r is Ok ==> r->Ok_0 == uuid_parsed(text@)->Ok_0,
        r is Err ==> r->Err_0@ == uuid_parsed(text@)->Err_0,
{
    uuid::Uuid::parse_str(text).map(|u| u.as_u128()).map_err(|e| e.to_string())
}

/// The text by which a UUID is stored.
pub fn uuid_to_string(u: Uuid) -> (r: String)
    ensures
        r@ == uuid_text(u),
        uuid_parsed(r@) is Ok && uuid_parsed(r@)->Ok_0 == u,
{
    uuid_format(u)
}

/// Reads a stored UUID.
pub fn parse_uuid(text: &str) -> (r: Result<Uuid, String>)
    ensures
        r is Ok <==> uuid_parsed(text@) is Ok,
        r is Ok ==> r->Ok_0 == uuid_parsed(text@)->Ok_0,
        r is Err ==> r->Err_0@ == uuid_parsed(text@)->Err_0,
{
    uuid_parse(text)
}

// ------------------------------------------------------------------------ URLs

/// The host of a URL as the URL standard serialises it; `None` where the text
/// is no absolute URL or the URL has no host.
pub uninterp spec fn url_host(url: Seq<char>) -> Option<Seq<char>>;

/// Calls `url::Url::parse` and `host_str`: a function of the text.
#[verifier::external_body]
fn parse_url_host(url: &str) -> (r: Option<String>)
    ensures
        r is Some <==> url_host(url@) is Some,
        r is Some ==> r->0@ == url_host(url@)->0,
{
    url::Url::parse(url).ok().and_then(|u| u.host_str().map(|h| h.to_owned()))
}

/// The lowercase host a parsed URL is indexed under; empty where there is
/// none.
pub open spec fn indexed_host(host: Option<Seq<char>>) -> Seq<char> {
    match host {
        Some(h) => h.map_values(|c: char| text::ascii_lower(c)),
        None => Seq::empty(),
    }
}

/// The lowercase host a parsed URL is indexed under; empty where there is
/// none.
pub fn host_column(host: Option<String>) -> (r: String)
    ensures
        r@ == indexed_host(match host {
            Some(h) => Some(h@),
            None => None,
        }),
{
    match host {
        Some(h) => text::to_ascii_lower(h.as_str()),
        None => String::new(),
    }
}

/// The `url_host` column for a URL.
pub open spec fn host_of(url: Seq<char>) -> Seq<char> {
    if url.len() == 0 {
        Seq::empty()
    } else {
        indexed_host(url_host(url))
    }
}

/// Parses the host out of a URL, in lower case. Empty when the input is not a
/// URL or has no host.
pub fn parse_host(url: &str) -> (r: String)
    ensures
        r@ == host_of(url@),
{
    if url.is_empty() {
        return String::new();
    }
    host_column(parse_url_host(url))
}

} // verus!
