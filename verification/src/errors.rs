//! The failure taxonomy of the layer.

use vstd::prelude::*;

verus! {

/// Every failure an operation of this layer can surface.
///
/// * `StoreWriteError` — the ledger rejected an append; the operation did not
///   take effect and is not retried here.
/// * `NotFoundError` — a referenced action does not exist in the ledger.
/// * `CorruptChainError` — resolving a version chain exceeded the hop bound,
///   the guard against an accidental or adversarial cycle of update
///   relations; fatal for that resolution only.
/// * `DeserializationError` — stored bytes do not decode as the expected
///   record shape; surfaced per item, so one bad item never aborts the
///   resolution of the rest.
#[derive(Clone, Copy, PartialEq, Eq, Structural, Debug)]
pub enum Error {
    StoreWriteError,
    NotFoundError,
    CorruptChainError,
    DeserializationError,
}

} // verus!
