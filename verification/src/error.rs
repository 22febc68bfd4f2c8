//! Error kinds reported by the engine.

use vstd::prelude::*;

verus! {

/// Why an input was rejected before anything was written.
#[derive(Clone, Copy, Debug, PartialEq, Eq, Structural)]
pub enum ValidationError {
    /// A movement or a sale asked for a quantity of zero or less.
    NonPositiveQuantity,
    /// The movement type is neither ingress nor egress.
    UnknownMovementKind,
    /// The timestamp of a sale does not begin with a day that exists.
    MalformedDate,
    /// A required field is missing or empty.
    MissingField,
    /// Another product already carries the requested SKU.
    DuplicateSku,
    /// The product is referenced by movements or sales and cannot be
    /// removed.
    ProductInUse,
}

/// Failure of an engine operation.
///
/// Every operation that returns an error leaves the store exactly as it
/// was: an error always means that no write occurred.
#[derive(Clone, Copy, Debug, PartialEq, Eq, Structural)]
pub enum EngineError {
    /// Malformed input; rejected before any write.
    Validation(ValidationError),
    /// The requested quantity exceeds the derived balance of the product.
    InsufficientStock { available: i64, requested: i64 },
    /// The store cannot take another record.
    Storage,
    /// The records contradict the invariants of the data model.
    ConsistencyFault,
}

} // verus!
