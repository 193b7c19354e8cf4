//! Clock and unique-id sources: the two non-deterministic inputs of the
//! protocol, each behind a small trusted boundary, plus the verified
//! reshaping of the raw id into the wire form.

use vstd::prelude::*;
use vstd::string::StrSliceExecFns;
use vstd::string::StringExecFns;

verus! {

/// Relies on `std::time::SystemTime::now` and `Duration::as_millis`: the
/// milliseconds since the Unix epoch.  The value depends on the wall clock,
/// so nothing is promised of it; a clock that reads before the epoch gives
/// 0 rather than aborting.
#[verifier::external_body]
fn clock_unix_millis() -> u128 {
    match std::time::SystemTime::now().duration_since(std::time::UNIX_EPOCH) {
        Ok(elapsed) => elapsed.as_millis(),
        Err(_) => 0,
    }
}

/// Milliseconds since the Unix epoch, for the `X-Timestamp` headers.  The
/// clock decides the value; callers treat it as arbitrary.
pub fn now_millis() -> u128 {
    clock_unix_millis()
}

/// A lowercase hexadecimal digit.
pub open spec fn is_lower_hex_digit(c: char) -> bool {
    ('0' <= c && c <= '9') || ('a' <= c && c <= 'f')
}

/// The shape of a request or connection identifier on the wire: 32
/// lowercase hexadecimal digits, no separators.
pub open spec fn is_request_id(s: Seq<char>) -> bool {
    s.len() == 32 && forall|i: int| 0 <= i < 32 ==> is_lower_hex_digit(#[trigger] s[i])
}

/// Relies on `uuid::Uuid::new_v4` and the `Display` impl of `Uuid`: a fresh
/// random UUID rendered in the hyphenated form, 36 characters, lowercase
/// hexadecimal digits with `-` at positions 8, 13, 18 and 23.  The value is
/// random, so only its shape is stated.
#[verifier::external_body]
fn new_uuid_hyphenated() -> (r: String)
    ensures
        r@.len() == 36,
        forall|i: int|
            0 <= i < 36 ==> if i == 8 || i == 13 || i == 18 || i == 23 {
                #[trigger] r@[i] == '-'
            } else {
                is_lower_hex_digit(r@[i])
            },
{
    uuid::Uuid::new_v4().to_string()
}

/// Generates a fresh identifier for a connection or a request: a random
/// UUID with the hyphens removed.
pub fn gen_request_id() -> (r: String)
    ensures
        is_request_id(r@),
{
    let u = new_uuid_hyphenated();
    let mut r = String::new();
    r.append(u.as_str().substring_char(0, 8));
    r.append(u.as_str().substring_char(9, 13));
    r.append(u.as_str().substring_char(14, 18));
    r.append(u.as_str().substring_char(19, 23));
    r.append(u.as_str().substring_char(24, 36));
    proof {
        assert(r@.len() == 32);
        assert forall|i: int| 0 <= i < 32 implies is_lower_hex_digit(#[trigger] r@[i]) by {
            if i < 8 {
                assert(r@[i] == u@[i]);
            } else if i < 12 {
                assert(r@[i] == u@[i + 1]);
            } else if i < 16 {
                assert(r@[i] == u@[i + 2]);
            } else if i < 20 {
                assert(r@[i] == u@[i + 3]);
            } else {
                assert(r@[i] == u@[i + 4]);
            }
        }
    }
    r
}

} // verus!
