//! Fresh identifiers for records.

use vstd::prelude::*;

verus! {

/// A new random identifier: `uuid::Uuid::new_v4`, written out as text.
/// Nothing is claimed of it: two calls need not agree.
#[verifier::external_body]
pub(crate) fn new_id() -> (id: String)
{
    uuid::Uuid::new_v4().to_string()
}

} // verus!
