use vstd::prelude::*;

verus! {

/// What `bcrypt::verify(password, stored)` reports, with a verification error
/// (a malformed `stored` value) counted as a mismatch. The result is a pure
/// function of the two arguments: the cost and salt are read back out of
/// `stored` and the check recomputes the digest from them deterministically.
pub uninterp spec fn bcrypt_accepts(password: Seq<char>, stored: Seq<char>) -> bool;

/// Relies on `bcrypt::hash` with `bcrypt::DEFAULT_COST`: the fixed cost of 12
/// is inside the allowed range and hashing truncates long passwords rather
/// than failing, so no input makes the call return an error (only an
/// operating system unable to supply salt randomness does, which is treated
/// as fatal, like a failed allocation). The produced credential embeds the
/// cost and the fresh random salt, from which `bcrypt::verify` recomputes the
/// same digest; the same password therefore verifies against it.
#[verifier::external_body]
pub(crate) fn hash_password(password: &str) -> (r: String)
    ensures
        bcrypt_accepts(password@, r@),
{
    bcrypt::hash(password, bcrypt::DEFAULT_COST).expect("no input makes hashing fail")
}

/// Relies on `bcrypt::verify`: deterministic in its two arguments. An error
/// (a malformed stored credential) is reported as a mismatch, as a login
/// check wants it.
#[verifier::external_body]
pub(crate) fn check_password(password: &str, stored: &str) -> (r: bool)
    ensures
        r == bcrypt_accepts(password@, stored@),
{
    bcrypt::verify(password, stored).unwrap_or(false)
}

/// Relies on `uuid::Uuid::new_v4`: a fresh random identifier, rendered in the
/// hyphenated text form. Nothing is promised of the value: randomness gives
/// no repeatable result to state.
#[verifier::external_body]
pub(crate) fn fresh_uuid() -> String {
    uuid::Uuid::new_v4().to_string()
}

/// Relies on `chrono::Utc::now`: the current instant, rendered by
/// `DateTime::to_rfc3339`. Nothing is promised of the value: it depends on
/// the clock.
#[verifier::external_body]
pub(crate) fn now_rfc3339() -> String {
    chrono::Utc::now().to_rfc3339()
}

/// Relies on `String`'s `FromIterator<char>`: collecting characters yields
/// the string of exactly those characters, in order.
#[verifier::external_body]
pub(crate) fn chars_to_string(v: &Vec<char>) -> (r: String)
    ensures
        r@ == v@,
{
    v.iter().collect()
}

} // verus!
