use vstd::prelude::*;

use crate::model::Store;

verus! {

/// Relies on uuid::Uuid::new_v4 (and Uuid::as_u128 to read the value out):
/// draws a random version-4 UUID. The value is random, so nothing is promised
/// of it; callers test it before use.
#[verifier::external_body]
pub(crate) fn random_id() -> u128 {
    uuid::Uuid::new_v4().as_u128()
}

/// Draws a random identifier and accepts it only when no row of the store
/// carries it yet. `None` means the draw collided; the caller reports an
/// internal error rather than retrying forever.
pub fn fresh_id(store: &Store) -> (r: Option<u128>)
    ensures
        match r {
            Some(id) => !store.id_in_use(id),
            None => true,
        },
{
    let id = random_id();
    if store.uses_id(id) {
        None
    } else {
        Some(id)
    }
}

} // verus!
