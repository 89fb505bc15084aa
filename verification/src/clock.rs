//! The system clock, in milliseconds since the Unix epoch.

use vstd::prelude::*;

verus! {

/// `SystemTime::now().duration_since(UNIX_EPOCH)` as whole milliseconds
/// (`Duration::as_millis`), none when the clock reads before the epoch (the
/// `Err` of `duration_since`). Nothing is stated of the value: it is the
/// machine's clock, and two calls may give anything.
#[verifier::external_body]
pub(crate) fn millis_since_epoch() -> (r: Option<u128>) {
    match std::time::SystemTime::now().duration_since(std::time::UNIX_EPOCH) {
        Ok(d) => Some(d.as_millis()),
        Err(_) => None,
    }
}

/// A reading of the clock as an `i64` of milliseconds (the `as` cast),
/// none for a clock before the epoch. This is the whole of what the library
/// does with a reading; the reading itself is the machine's.
pub fn epoch_millis_to_i64(ms: Option<u128>) -> (r: Option<i64>)
    ensures
        r == match ms {
            Some(m) => Some(m as i64),
            None => None::<i64>,
        },
{
    match ms {
        Some(m) => Some(m as i64),
        None => None,
    }
}

} // verus!
