//! Error taxonomy of the store and of JMAP set operations.

use vstd::prelude::*;

verus! {

/// Identifies one property of a JMAP object, as a small integer key.
pub type FieldId = u8;

/// Store-level failure: decoding errors are fatal to the affected operation,
/// internal errors may be retried by the caller.
#[derive(Debug, Clone, PartialEq, Eq, Structural)]
pub enum StoreError {
    InternalError,
    DataCorruption,
    SerializeError,
    NotFound,
}

/// Per-object failure of a JMAP `set` invocation, surfaced to the client.
#[derive(Debug)]
pub enum SetError {
    /// A property value was rejected; carries the property and a description.
    InvalidProperty { property: FieldId, description: String },
    /// The referenced object does not exist.
    NotFound,
    /// A store-level failure happened while applying the change.
    Store { error: StoreError },
}

impl SetError {
    pub fn invalid_property(property: FieldId, description: String) -> (r: SetError)
        ensures
            (r matches SetError::InvalidProperty { property: p, description: d } && p == property
                && d == description),
    {
        SetError::InvalidProperty { property, description }
    }
}

/// Failure of parsing a JMAP method invocation.
#[derive(Debug)]
pub enum MethodError {
    InvalidArguments,
    RequestTooLarge,
    UnknownMethod,
}

} // verus!
