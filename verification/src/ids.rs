//! Identifiers, clock readings and digests obtained from the `uuid`, `chrono`
//! and `sha2` crates.
//!
//! Identifiers are carried as `u128`, the value `Uuid::as_u128` returns; a
//! `Uuid` and its `u128` determine each other, and the integer order is the
//! order `Uuid` derives. Timestamps are milliseconds since the Unix epoch.
use sha2::Digest;
use vstd::prelude::*;

verus! {

/// A lowercase hexadecimal digit.
pub open spec fn hex_digit(n: nat) -> char {
    if n < 10 {
        (48 + n) as char
    } else {
        (87 + n) as char
    }
}

/// The 32 lowercase hex digits of an identifier, most significant first:
/// the bytes `Uuid::from_u128` stores (big-endian), each as two digits.
pub open spec fn uuid_hex_digits(id: u128) -> Seq<char> {
    Seq::new(32, |i: int| hex_digit(((id as nat) / vstd::arithmetic::power2::pow2((4 * (31 - i)) as nat)) % 16))
}

/// The hyphenated lowercase text `Uuid`'s `Display` writes for an
/// identifier: its hex digits in groups of 8, 4, 4, 4 and 12.
#[verifier::opaque]
pub open spec fn uuid_hyphenated_text(id: u128) -> Seq<char> {
    let h = uuid_hex_digits(id);
    h.subrange(0, 8) + seq!['-'] + h.subrange(8, 12) + seq!['-'] + h.subrange(12, 16) + seq!['-'] + h.subrange(
        16,
        20,
    ) + seq!['-'] + h.subrange(20, 32)
}

/// The 32-digit text `Uuid::simple` writes for an identifier.
#[verifier::opaque]
pub open spec fn uuid_simple_text(id: u128) -> Seq<char> {
    uuid_hex_digits(id)
}

/// What `Uuid::parse_str` accepts, as the identifier it parses.
pub uninterp spec fn uuid_parse_text(text: Seq<char>) -> Option<u128>;

/// The instant `chrono::DateTime::parse_from_rfc3339` reads from a text, in
/// milliseconds since the epoch; `None` where it refuses the text.
pub uninterp spec fn rfc3339_millis_text(text: Seq<char>) -> Option<i64>;

/// Lowercase hex text of the SHA-256 digest of the UTF-8 bytes of `text`.
pub uninterp spec fn sha256_hex_text(text: Seq<char>) -> Seq<char>;

/// The text `DateTime<Utc>`'s `Display` writes for an instant given in
/// milliseconds since the epoch; `None` where `from_timestamp_millis` has no
/// such instant.
pub uninterp spec fn utc_display_text(ms: i64) -> Option<Seq<char>>;

/// Formats an identifier with `uuid::Uuid::from_u128(id).to_string()`: the
/// hyphenated lowercase hex text, which `Uuid::parse_str` reads back as the
/// same identifier.
#[verifier::external_body]
pub fn uuid_text(id: u128) -> (s: String)
    ensures
        s@ == uuid_hyphenated_text(id),
        uuid_parse_text(s@) == Some(id),
{
    uuid::Uuid::from_u128(id).to_string()
}

/// Formats an identifier with `uuid::Uuid::simple`: its 32 lowercase hex
/// digits.
#[verifier::external_body]
pub fn uuid_simple(id: u128) -> (s: String)
    ensures
        s@ == uuid_simple_text(id),
{
    uuid::Uuid::from_u128(id).simple().to_string()
}

/// Parses with `uuid::Uuid::parse_str`; the contract names the outcome as a
/// function of the text alone.
#[verifier::external_body]
pub fn parse_uuid_text(text: &str) -> (r: Option<u128>)
    ensures
        r == uuid_parse_text(text@),
{
    match uuid::Uuid::parse_str(text) {
        Ok(id) => Some(id.as_u128()),
        Err(_) => None,
    }
}

/// A fresh random identifier from `uuid::Uuid::new_v4`. Nothing is stated of
/// the value: it comes from the operating system's random source.
#[verifier::external_body]
pub fn new_uuid() -> (id: u128) {
    uuid::Uuid::new_v4().as_u128()
}

/// The current time from `chrono::Utc::now`, in milliseconds. Nothing is
/// stated of the value: it is the machine clock.
#[verifier::external_body]
pub fn now_millis() -> (t: i64) {
    chrono::Utc::now().timestamp_millis()
}

/// Parses an RFC 3339 timestamp with `chrono::DateTime::parse_from_rfc3339`
/// and reads it in UTC milliseconds; the contract names the outcome as a
/// function of the text alone.
#[verifier::external_body]
pub fn parse_rfc3339_millis(text: &str) -> (r: Option<i64>)
    ensures
        r == rfc3339_millis_text(text@),
{
    match chrono::DateTime::parse_from_rfc3339(text) {
        Ok(t) => Some(t.with_timezone(&chrono::Utc).timestamp_millis()),
        Err(_) => None,
    }
}

/// The current time from `chrono::Utc::now`, as `to_rfc3339` writes it.
/// Nothing is stated of the text: it is the machine clock.
#[verifier::external_body]
pub fn now_rfc3339() -> (t: String) {
    chrono::Utc::now().to_rfc3339()
}

/// Lowercase hex SHA-256 of the text's UTF-8 bytes, computed with
/// `sha2::Sha256::digest` and `{:x}` formatting; the contract names the
/// digest as a function of the text alone.
#[verifier::external_body]
pub fn sha256_hex(text: &str) -> (h: String)
    ensures
        h@ == sha256_hex_text(text@),
{
    format!("{:x}", sha2::Sha256::digest(text.as_bytes()))
}

/// Writes an instant with `chrono::DateTime::<Utc>::from_timestamp_millis`
/// and `Display`; the contract names the text as a function of the instant
/// alone, and `None` where chrono has no such instant.
#[verifier::external_body]
pub fn utc_display_millis(ms: i64) -> (r: Option<String>)
    ensures
        match r {
            Some(t) => utc_display_text(ms) == Some(t@),
            None => utc_display_text(ms) is None,
        },
{
    match chrono::DateTime::<chrono::Utc>::from_timestamp_millis(ms) {
        Some(t) => Some(t.to_string()),
        None => None,
    }
}

} // verus!
