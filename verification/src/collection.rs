//! The fixed set of replicated document collections, used as a small
//! integer key everywhere; `None` is a sentinel that is invalid as a key.

use vstd::prelude::*;

verus! {

#[derive(Debug, Clone, Copy, Hash, PartialEq, Eq, Structural)]
pub enum Collection {
    Principal,
    PushSubscription,
    Mail,
    Mailbox,
    Thread,
    Identity,
    EmailSubmission,
    VacationResponse,
    Invalid,
}

/// The integer key of a collection.
pub open spec fn collection_key(c: Collection) -> u64 {
    match c {
        Collection::Principal => 0,
        Collection::PushSubscription => 1,
        Collection::Mail => 2,
        Collection::Mailbox => 3,
        Collection::Thread => 4,
        Collection::Identity => 5,
        Collection::EmailSubmission => 6,
        Collection::VacationResponse => 7,
        Collection::Invalid => 8,
    }
}

/// The collection a key denotes; out-of-range keys fall to the sentinel.
pub open spec fn collection_of_key(value: u64) -> Collection {
    if value == 0 {
        Collection::Principal
    } else if value == 1 {
        Collection::PushSubscription
    } else if value == 2 {
        Collection::Mail
    } else if value == 3 {
        Collection::Mailbox
    } else if value == 4 {
        Collection::Thread
    } else if value == 5 {
        Collection::Identity
    } else if value == 6 {
        Collection::EmailSubmission
    } else if value == 7 {
        Collection::VacationResponse
    } else {
        Collection::Invalid
    }
}

impl Default for Collection {
    fn default() -> (r: Self)
        ensures
            r == Collection::Invalid,
    {
        Collection::Invalid
    }
}

impl From<u8> for Collection {
    fn from(value: u8) -> (r: Self) {
        collection_from_u8(value)
    }
}

impl vstd::std_specs::convert::FromSpecImpl<u8> for Collection {
    open spec fn obeys_from_spec() -> bool {
        true
    }

    open spec fn from_spec(value: u8) -> Collection {
        collection_of_key(value as u64)
    }
}

impl From<u64> for Collection {
    fn from(value: u64) -> (r: Self) {
        collection_from_u64(value)
    }
}

impl vstd::std_specs::convert::FromSpecImpl<u64> for Collection {
    open spec fn obeys_from_spec() -> bool {
        true
    }

    open spec fn from_spec(value: u64) -> Collection {
        collection_of_key(value)
    }
}

impl From<Collection> for u8 {
    fn from(collection: Collection) -> (r: u8) {
        collection_to_u8(collection)
    }
}

impl vstd::std_specs::convert::FromSpecImpl<Collection> for u8 {
    open spec fn obeys_from_spec() -> bool {
        true
    }

    open spec fn from_spec(collection: Collection) -> u8 {
        collection_key(collection) as u8
    }
}

impl From<Collection> for u64 {
    fn from(collection: Collection) -> (r: u64) {
        collection_to_u64(collection)
    }
}

impl vstd::std_specs::convert::FromSpecImpl<Collection> for u64 {
    open spec fn obeys_from_spec() -> bool {
        true
    }

    open spec fn from_spec(collection: Collection) -> u64 {
        collection_key(collection)
    }
}

/// Decodes a `u8` key.
pub fn collection_from_u8(value: u8) -> (r: Collection)
    ensures
        r == collection_of_key(value as u64),
{
    collection_from_u64(value as u64)
}

/// Decodes a `u64` key.
pub fn collection_from_u64(value: u64) -> (r: Collection)
    ensures
        r == collection_of_key(value),
{
    if value == 0 {
        Collection::Principal
    } else if value == 1 {
        Collection::PushSubscription
    } else if value == 2 {
        Collection::Mail
    } else if value == 3 {
        Collection::Mailbox
    } else if value == 4 {
        Collection::Thread
    } else if value == 5 {
        Collection::Identity
    } else if value == 6 {
        Collection::EmailSubmission
    } else if value == 7 {
        Collection::VacationResponse
    } else {
        Collection::Invalid
    }
}

/// Encodes a collection as its `u8` key.
pub fn collection_to_u8(collection: Collection) -> (r: u8)
    ensures
        r == collection_key(collection),
{
    match collection {
        Collection::Principal => 0,
        Collection::PushSubscription => 1,
        Collection::Mail => 2,
        Collection::Mailbox => 3,
        Collection::Thread => 4,
        Collection::Identity => 5,
        Collection::EmailSubmission => 6,
        Collection::VacationResponse => 7,
        Collection::Invalid => 8,
    }
}

/// Encodes a collection as its `u64` key.
pub fn collection_to_u64(collection: Collection) -> (r: u64)
    ensures
        r == collection_key(collection),
{
    collection_to_u8(collection) as u64
}

/// An item that can key a bitmap of per-kind document sets.
pub trait BitmapItem: Sized {
    spec fn spec_max() -> u64;

    spec fn spec_is_valid(&self) -> bool;

    fn max() -> (r: u64)
        ensures
            r == Self::spec_max(),
    ;

    fn is_valid(&self) -> (r: bool)
        ensures
            r == self.spec_is_valid(),
    ;
}

impl BitmapItem for Collection {
    open spec fn spec_max() -> u64 {
        collection_key(Collection::Invalid)
    }

    open spec fn spec_is_valid(&self) -> bool {
        !(*self is Invalid)
    }

    fn max() -> (r: u64)
        ensures
            r == Self::spec_max(),
    {
        collection_to_u64(Collection::Invalid)
    }

    fn is_valid(&self) -> (r: bool)
        ensures
            r == self.spec_is_valid(),
    {
        !matches!(self, Collection::Invalid)
    }
}

} // verus!
