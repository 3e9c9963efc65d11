//! Fresh row ids.

use vstd::prelude::*;

verus! {

/// A random row id, from `uuid::Uuid::new_v4` in the hyphenated form that `to_string` gives. All
/// that is claimed of it is its length; that ids do not collide is a matter of chance.
#[verifier::external_body]
pub(crate) fn new_id() -> (id: String)
    ensures
        id@.len() == 36,
{
    uuid::Uuid::new_v4().to_string()
}

} // verus!
