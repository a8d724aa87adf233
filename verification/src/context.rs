//! The signing context: the timestamp and the nonce that are made anew for
//! each signature.
//!
//! The timestamp is written `yyyyMMddTHH:mm:ss+0000`, always in UTC, and is 22
//! characters long. The nonce is a random UUID in its hyphenated lower-case
//! form.

use crate::error::{EdgeGridError, Failure};
use crate::text::chars_of;
use vstd::prelude::*;

verus! {

/// The text that `chrono` writes, in the pattern `%Y%m%dT%H:%M:%S+0000`, for
/// the instant `seconds` after the start of 1970 in UTC; `None` where `chrono`
/// has no date for it.
pub uninterp spec fn utc_text(seconds: int) -> Option<Seq<char>>;

/// Whether `c` is a decimal digit.
pub open spec fn is_digit(c: char) -> bool {
    '0' <= c && c <= '9'
}

/// Whether `c` is a hexadecimal digit in lower case.
pub open spec fn is_lower_hex(c: char) -> bool {
    ('0' <= c && c <= '9') || ('a' <= c && c <= 'f')
}

/// Whether `i` is one of the places of a timestamp that hold a digit of the
/// date or the time.
pub open spec fn is_digit_place(i: int) -> bool {
    (0 <= i < 8) || i == 9 || i == 10 || i == 12 || i == 13 || i == 15 || i == 16
}

/// Whether `s` has the form of a timestamp: eight digits, `T`, and the time of
/// day as `HH:mm:ss`, followed by `+0000`.
pub open spec fn is_timestamp(s: Seq<char>) -> bool {
    &&& s.len() == 22
    &&& forall|i: int| is_digit_place(i) ==> is_digit(#[trigger] s[i])
    &&& s[8] == 'T'
    &&& s[11] == ':'
    &&& s[14] == ':'
    &&& s[17] == '+'
    &&& s[18] == '0'
    &&& s[19] == '0'
    &&& s[20] == '0'
    &&& s[21] == '0'
}

/// Whether `i` is one of the places of a nonce that hold a hyphen.
pub open spec fn is_hyphen_place(i: int) -> bool {
    i == 8 || i == 13 || i == 18 || i == 23
}

/// Whether `s` has the form of a nonce, a random UUID written out: 36
/// characters, hyphens after the 8th, 12th, 16th and 20th hexadecimal digit,
/// lower case, with the version digit `4` and a variant digit from `8` to
/// `b`.
pub open spec fn is_nonce(s: Seq<char>) -> bool {
    &&& s.len() == 36
    &&& s[14] == '4'
    &&& (s[19] == '8' || s[19] == '9' || s[19] == 'a' || s[19] == 'b')
    &&& forall|i: int|
        0 <= i < 36 ==> if is_hyphen_place(i) {
            #[trigger] s[i] == '-'
        } else {
            is_lower_hex(s[i])
        }
}

/// What is made of the text that the clock reading was written as: the text
/// itself where it is a timestamp, else a refusal.
pub open spec fn checked_timestamp(text: Option<Seq<char>>) -> Result<Seq<char>, Failure> {
    match text {
        Some(t) => if is_timestamp(t) {
            Ok(t)
        } else {
            Err(Failure::AuthError("The clock shows no time that a timestamp can write"@))
        },
        None => Err(Failure::AuthError("The clock shows no time that a timestamp can write"@)),
    }
}

/// The outcome of making a timestamp, as contracts speak of it.
pub open spec fn stamp_outcome(r: Result<String, EdgeGridError>) -> Result<Seq<char>, Failure> {
    match r {
        Ok(t) => Ok(t@),
        Err(e) => Err(e@),
    }
}

/// `std::time::SystemTime::now` reads the system clock, and `duration_since`
/// counts its seconds since the start of 1970; `None` where the clock stands
/// before that, or the count does not fit. Nothing is said of the number: it
/// is whatever the clock shows.
#[verifier::external_body]
fn unix_now() -> Option<i64> {
    match std::time::SystemTime::now().duration_since(std::time::UNIX_EPOCH) {
        Ok(d) => i64::try_from(d.as_secs()).ok(),
        Err(_) => None,
    }
}

/// `chrono::DateTime::from_timestamp` makes the UTC date and time of an
/// instant, or `None` out of its range; `format` writes it in the pattern.
#[verifier::external_body]
fn utc_format(seconds: i64) -> (r: Option<String>)
    ensures
        match r {
            Some(t) => utc_text(seconds as int) == Some(t@),
            None => utc_text(seconds as int) is None,
        },
{
    chrono::DateTime::from_timestamp(seconds, 0).map(
        |t| t.format("%Y%m%dT%H:%M:%S+0000").to_string(),
    )
}

/// `uuid::Uuid::new_v4` draws a random UUID, with the version 4 and the
/// variant bits `10` set, and its `Display` writes it hyphenated in lower
/// case. Which one comes is left open.
#[verifier::external_body]
fn random_uuid() -> (r: String)
    ensures
        is_nonce(r@),
{
    uuid::Uuid::new_v4().to_string()
}

/// Whether `text` has the form of a timestamp.
pub fn has_timestamp_form(text: &str) -> (r: bool)
    ensures
        r == is_timestamp(text@),
{
    let v = chars_of(text);
    if v.len() != 22 {
        return false;
    }
    let mut i: usize = 0;
    while i < 17
        invariant
            i <= 17,
            v.len() == 22,
            v@ == text@,
            forall|j: int| 0 <= j < i && is_digit_place(j) ==> is_digit(#[trigger] v@[j]),
            i > 8 ==> v@[8] == 'T',
            i > 11 ==> v@[11] == ':',
            i > 14 ==> v@[14] == ':',
        decreases 17 - i,
    {
        let c = v[i];
        let fits = if i == 8 {
            c == 'T'
        } else if i == 11 || i == 14 {
            c == ':'
        } else {
            '0' <= c && c <= '9'
        };
        if !fits {
            assert(!is_timestamp(v@)) by {
                if is_digit_place(i as int) {
                    assert(!is_digit(v@[i as int]));
                }
            }
            return false;
        }
        i += 1;
    }
    v[17] == '+' && v[18] == '0' && v[19] == '0' && v[20] == '0' && v[21] == '0'
}

/// The timestamp of the instant `seconds` after the start of 1970 in UTC. An
/// instant whose year does not fit four digits has no timestamp.
pub fn timestamp_at(seconds: i64) -> (r: Result<String, EdgeGridError>)
    ensures
        stamp_outcome(r) == checked_timestamp(utc_text(seconds as int)),
{
    match utc_format(seconds) {
        Some(text) => {
            if has_timestamp_form(text.as_str()) {
                Ok(text)
            } else {
                Err(
                    EdgeGridError::AuthError(
                        "The clock shows no time that a timestamp can write".to_string(),
                    ),
                )
            }
        },
        None => Err(
            EdgeGridError::AuthError("The clock shows no time that a timestamp can write".to_string()),
        ),
    }
}

/// The timestamp of the present instant. Which instant that is, the clock
/// decides; whatever it shows, what comes back has the form of a timestamp.
pub fn create_timestamp() -> (r: Result<String, EdgeGridError>)
    ensures
        match r {
            Ok(t) => is_timestamp(t@),
            Err(e) => e@ == Failure::AuthError("The clock shows no time that a timestamp can write"@),
        },
{
    match unix_now() {
        Some(seconds) => timestamp_at(seconds),
        None => Err(
            EdgeGridError::AuthError(
                "The clock shows no time that a timestamp can write".to_string(),
            ),
        ),
    }
}

/// A fresh nonce. Which one, chance decides; it has the form of a nonce.
pub fn create_nonce() -> (r: String)
    ensures
        is_nonce(r@),
{
    random_uuid()
}

/// A timestamp is 22 characters long, holds `T` once, at its ninth place, and
/// ends with `+0000`.
pub proof fn lemma_timestamp_form(s: Seq<char>)
    requires
        is_timestamp(s),
    ensures
        s.len() == 22,
        s[8] == 'T',
        forall|i: int| 0 <= i < 22 && i != 8 ==> #[trigger] s[i] != 'T',
        "+0000"@.is_suffix_of(s),
{
    reveal_strlit("+0000");
    assert(s.subrange(17, 22) =~= "+0000"@);
    assert forall|i: int| 0 <= i < 22 && i != 8 implies #[trigger] s[i] != 'T' by {
        if is_digit_place(i) {
            assert(is_digit(s[i]));
        }
    }
}

} // verus!
