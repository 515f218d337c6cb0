use vstd::prelude::*;

verus! {

/// The error taxonomy of the store: every operation that can fail reports one
/// of these.
///
/// `NotFound`: a referenced plan, execution or item does not exist (or is
/// hidden by a visibility filter such as soft deletion).
/// `Conflict`: a state-machine guard failed, e.g. completing an execution with
/// unfinished items, reopening outside the allowed window, or deleting a
/// completed execution.
/// `Validation`: a malformed or version-mismatched snapshot document.
/// `Internal`: the store could not carry the operation out (e.g. no unused
/// identifier could be drawn); the operation has no effect.
#[derive(Clone, Copy, Debug, PartialEq, Eq, Structural)]
pub enum StoreError {
    NotFound,
    Conflict,
    Validation,
    Internal,
}

} // verus!
