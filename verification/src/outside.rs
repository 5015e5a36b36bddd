//! The boundary to the hash, the clock and the random source.
//!
//! Nothing in this module is proved: each item states what the library
//! behind it does.

use vstd::prelude::*;
use sha2::{Digest, Sha256};

verus! {

/// SHA-256 of the UTF-8 bytes of a text, in lower-case hexadecimal digits.
pub uninterp spec fn sha256_hex(text: Seq<char>) -> Seq<char>;

/// The lower-case form of a text, as Unicode defines it.
pub uninterp spec fn lowercase_of(text: Seq<char>) -> Seq<char>;

/// `str::to_lowercase` of the standard library.
#[verifier::external_body]
pub(crate) fn to_lowercase(text: &str) -> (lower: String)
    ensures
        lower@ == lowercase_of(text@),
{
    text.to_lowercase()
}

/// Whether `c` is a hexadecimal digit in lower case.
pub open spec fn is_lower_hex(c: char) -> bool {
    ('0' <= c && c <= '9') || ('a' <= c && c <= 'f')
}

/// Whether `text` has the form of a digest: 64 hexadecimal digits in lower
/// case.
pub open spec fn is_digest(text: Seq<char>) -> bool {
    text.len() == 64 && forall|i: int| 0 <= i < 64 ==> is_lower_hex(#[trigger] text[i])
}

/// Whether `c` is a decimal digit.
pub open spec fn is_digit(c: char) -> bool {
    '0' <= c && c <= '9'
}

/// Whether `text` has the form of a date: a year of at least four
/// characters, a hyphen, two digits for the month, a hyphen and two digits
/// for the day.
pub open spec fn is_date_text(text: Seq<char>) -> bool {
    let n = text.len() as int;
    &&& n >= 10
    &&& text[n - 6] == '-'
    &&& is_digit(text[n - 5])
    &&& is_digit(text[n - 4])
    &&& text[n - 3] == '-'
    &&& is_digit(text[n - 2])
    &&& is_digit(text[n - 1])
}

/// Whether `text` has the form of a time of day behind a `T`: two digits
/// each for the hour, the minute and the second, with colons between.
pub open spec fn is_clock_text(text: Seq<char>) -> bool {
    &&& text.len() == 9
    &&& text[0] == 'T'
    &&& is_digit(text[1])
    &&& is_digit(text[2])
    &&& text[3] == ':'
    &&& is_digit(text[4])
    &&& is_digit(text[5])
    &&& text[6] == ':'
    &&& is_digit(text[7])
    &&& is_digit(text[8])
}

/// Whether `text` has the form of a timestamp: a date, `T` and the time of
/// day.
pub open spec fn is_timestamp_text(text: Seq<char>) -> bool {
    let n = text.len() as int;
    &&& n >= 19
    &&& is_date_text(text.take(n - 9))
    &&& is_clock_text(text.skip(n - 9))
}

/// `Sha256` of the crate `sha2` over the bytes of `content`, written in
/// hexadecimal digits with `{:x}`: two digits in lower case for each of the
/// 32 bytes of the digest.
#[verifier::external_body]
pub(crate) fn compute_file_hash(content: &str) -> (hash: String)
    ensures
        hash@ == sha256_hex(content@),
        is_digest(hash@),
{
    let mut hasher = Sha256::new();
    hasher.update(content.as_bytes());
    format!("{:x}", hasher.finalize())
}

/// `chrono::Utc::now`, written with the format `%Y-%m-%dT%H:%M:%S`. Which
/// time it is is left open: it is the time of the call. Its form is stated:
/// the format writes the year with at least four characters and every other
/// number with two digits.
#[verifier::external_body]
pub(crate) fn utc_timestamp() -> (now: String)
    ensures
        is_timestamp_text(now@),
{
    chrono::Utc::now().format("%Y-%m-%dT%H:%M:%S").to_string()
}

/// `chrono::Local::now`, written with the format `%Y-%m-%dT%H:%M:%S`. Which
/// time it is is left open: it is the time of the call. Its form is stated:
/// the format writes the year with at least four characters and every other
/// number with two digits.
#[verifier::external_body]
pub(crate) fn local_timestamp() -> (now: String)
    ensures
        is_timestamp_text(now@),
{
    chrono::Local::now().format("%Y-%m-%dT%H:%M:%S").to_string()
}

/// `chrono::Local::now`, written with the format `%Y-%m-%d`. Which day it is
/// is left open: it is the day of the call. Its form is stated: the format
/// writes the year with at least four characters and the month and the day
/// with two digits each.
#[verifier::external_body]
pub(crate) fn local_date() -> (today: String)
    ensures
        is_date_text(today@),
{
    chrono::Local::now().format("%Y-%m-%d").to_string()
}

/// `Uuid::new_v4` of the crate `uuid` in its simple form: 32 hexadecimal
/// digits in lower case. Which digits is left open: they are random.
#[verifier::external_body]
pub(crate) fn random_hex() -> (digits: String)
    ensures
        digits@.len() == 32,
        forall|i: int| 0 <= i < 32 ==> is_lower_hex(#[trigger] digits@[i]),
{
    uuid::Uuid::new_v4().simple().to_string()
}

} // verus!
