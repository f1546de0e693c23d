//! The two things that the store asks of the world outside: the time and a
//! random choice. Nothing here is proved; the contracts say what the crates
//! `chrono` and `rand` document.

use vstd::prelude::*;

verus! {

/// `chrono::Utc::now`, read in whole seconds since the Unix epoch by
/// `DateTime::timestamp`. Nothing is claimed of the value: it is whatever
/// the clock of the machine shows. `Utc::now` panics where that clock is set
/// to a time before 1970.
#[verifier::external_body]
pub(crate) fn current_timestamp() -> i64 {
    chrono::Utc::now().timestamp()
}

/// `rand::random_range` on the range `0..len`: a number of that range, drawn
/// by the generator of the current thread. The range must not be empty.
#[verifier::external_body]
pub(crate) fn random_index(len: usize) -> (index: usize)
    requires
        len > 0,
    ensures
        index < len,
{
    rand::random_range(0..len)
}

} // verus!
