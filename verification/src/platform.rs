//! The calls into the standard library for which the verifier has no
//! specification. Their contracts are believed, not proved.

use vstd::prelude::*;

verus! {

/// `std::time::Instant`, a reading of the monotonic clock. The metrics carry
/// one from the coordinator's start; nothing in the library looks inside.
#[verifier::external_type_specification]
#[verifier::external_body]
pub struct ExInstant(std::time::Instant);

/// `String::push`: the string afterwards is the string before with `c`
/// appended at its end.
#[verifier::external_body]
pub(crate) fn push_char(s: &mut String, c: char)
    ensures
        final(s)@ == old(s)@.push(c),
{
    s.push(c)
}

/// `Instant::now`: the present reading of the clock. Nothing is claimed of
/// the value: it differs from call to call.
#[verifier::external_body]
pub(crate) fn now() -> std::time::Instant {
    std::time::Instant::now()
}

} // verus!
