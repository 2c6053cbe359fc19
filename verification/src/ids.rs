//! Fresh identifiers for newly created records.

use vstd::prelude::*;

verus! {

/// A fresh identifier.
/// Relies on uuid's `Uuid::new_v4` and its `Display` form: 36 characters in
/// the hyphenated lower-case hexadecimal layout. The value is random, so
/// nothing more is assumed of it; in particular, two calls may collide, and
/// every caller treats the id as an upsert key. `new_v4` aborts if the
/// operating system's entropy source fails; that is an environment failure,
/// not an input, so no precondition can rule it out.
#[verifier::external_body]
pub(crate) fn fresh_id() -> (r: String)
    ensures
        r@.len() == 36,
{
    uuid::Uuid::new_v4().to_string()
}

} // verus!
