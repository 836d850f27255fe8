//! Trusted boundary to the outside crates the pipeline leans on: `uuid` for
//! identifier parsing and formatting, and `rand` for generated credentials.
//!
//! Each wrapper's contract states what the outside call returns; everything
//! built on top of these is verified against those contracts.

use vstd::prelude::*;

use rand::Rng;

verus! {

/// The value `uuid::Uuid::parse_str` decodes from a string, if any; parsing
/// is a function of the input characters alone.
pub uninterp spec fn uuid_of(s: Seq<char>) -> Option<u128>;

/// The hyphenated rendering `uuid::Uuid::to_string` gives a 128-bit value;
/// formatting is a function of the value alone.
pub uninterp spec fn uuid_string_of(n: u128) -> Seq<char>;

/// Relies on uuid::Uuid::parse_str and Uuid::as_u128: decodes a textual UUID
/// into its 128-bit value. The result depends on the input string alone.
#[verifier::external_body]
pub(crate) fn parse_uuid(s: &str) -> (r: Option<u128>)
    ensures
        r == uuid_of(s@),
{
    uuid::Uuid::parse_str(s).ok().map(|u| u.as_u128())
}

/// Relies on uuid::Uuid::from_u128 and Uuid::to_string: renders a 128-bit
/// value in the hyphenated form, which Uuid::parse_str documents it accepts
/// and decodes back to the same value.
#[verifier::external_body]
pub(crate) fn uuid_string(n: u128) -> (r: String)
    ensures
        r@ == uuid_string_of(n),
        uuid_of(r@) == Some(n),
{
    uuid::Uuid::from_u128(n).to_string()
}

/// What `str::trim` leaves of a string: the characters with leading and
/// trailing whitespace removed.
pub uninterp spec fn trim_of(s: Seq<char>) -> Seq<char>;

/// What `str::to_lowercase` makes of a string; the result depends on the
/// characters alone.
pub uninterp spec fn lower_of(s: Seq<char>) -> Seq<char>;

/// Relies on str::trim: returns the input without leading and trailing
/// whitespace, so never longer than the input.
#[verifier::external_body]
pub(crate) fn trim_str(s: &str) -> (r: &str)
    ensures
        r@ == trim_of(s@),
        r@.len() <= s@.len(),
{
    s.trim()
}

/// Relies on str::to_lowercase: an empty string stays empty.
#[verifier::external_body]
pub(crate) fn lowercase_str(s: &str) -> (r: String)
    ensures
        r@ == lower_of(s@),
        s@.len() == 0 ==> r@.len() == 0,
{
    s.to_lowercase()
}

/// One character of the set rand's `Alphanumeric` distribution draws from.
pub open spec fn is_alphanumeric_char(c: char) -> bool {
    ('a' as u32 <= c as u32 && c as u32 <= 'z' as u32) || ('A' as u32 <= c as u32 && c as u32
        <= 'Z' as u32) || ('0' as u32 <= c as u32 && c as u32 <= '9' as u32)
}

/// Relies on rand::thread_rng and Rng::sample_iter with the Alphanumeric
/// distribution, which samples uniformly from a-z, A-Z and 0-9: a random
/// string of exactly `len` such characters.
#[verifier::external_body]
pub(crate) fn random_alphanumeric(len: usize) -> (r: String)
    ensures
        r@.len() == len as nat,
        forall|i: int| 0 <= i < r@.len() ==> is_alphanumeric_char(#[trigger] r@[i]),
{
    rand::thread_rng()
        .sample_iter(&rand::distributions::Alphanumeric)
        .take(len)
        .map(char::from)
        .collect::<String>()
}

} // verus!
