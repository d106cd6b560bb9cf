//! What each call gives anew: the id of a new record and the time of day.

use vstd::prelude::*;

verus! {

/// `Uuid::new_v4`, in the hyphenated form of its `Display`. The id is drawn at
/// random, so nothing is claimed of it. `uuid` gives up where the system has no
/// random bytes to hand out.
#[verifier::external_body]
pub(crate) fn new_id() -> String {
    uuid::Uuid::new_v4().to_string()
}

/// `Utc::now`, written by `DateTime::to_rfc3339`. The text depends on the
/// clock, so nothing is claimed of it. `chrono` gives up where the clock stands
/// before 1970.
#[verifier::external_body]
pub(crate) fn current_timestamp() -> String {
    chrono::Utc::now().to_rfc3339()
}

} // verus!
