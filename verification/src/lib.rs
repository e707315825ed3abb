//! A ledger of uniquely owned digital assets ("kitties") that are created,
//! bred from two parents, transferred and traded.  Ownership is indexed by a
//! persistent doubly-linked list over a point key-value store, so that
//! membership, append and removal touch a bounded number of storage keys
//! however many assets an account owns.

pub mod hashing;
pub mod keys;
pub mod ledger;
pub mod linked_item;
pub mod pallet;

use vstd::prelude::*;

verus! {

/// The stake held against an account for each asset it created or bred.
pub const LOCK_AMOUNT: u32 = 5;

/// An asset: immutable 128-bit DNA, identified elsewhere by its index.
#[derive(Clone, Copy, Debug, PartialEq, Eq)]
pub struct Kitty {
    pub dna: [u8; 16],
}

/// The typed failures of the public operations.  Every failure aborts its
/// call with no state change.
#[derive(Clone, Copy, Debug, PartialEq, Eq)]
pub enum Error {
    /// The global id counter has reached its maximum representable value.
    KittiesCountOverflow,
    /// The referenced id has no corresponding asset.
    InvalidKittyId,
    /// Breeding was attempted with identical parent ids.
    RequireDifferentParent,
    /// The caller does not currently own the referenced asset.
    RequireOwner,
    /// A purchase was attempted on an asset with no active listing.
    NotForSale,
    /// The offered amount is below the listed price.
    PriceTooLow,
    /// The caller's spendable balance is below the required stake.
    BalanceNotEnough,
    /// The currency ledger refused a payment for want of funds.
    InsufficientBalance,
    /// The currency ledger refused a payment that would overflow the payee.
    Overflow,
}

/// The domain events, one emitted by each successful public operation.
#[derive(Clone, Copy, Debug, PartialEq, Eq)]
pub enum Event {
    /// An asset was created: owner, new id.
    Created(u64, u32),
    /// An asset was bred: owner, new id.
    Breeded(u64, u32),
    /// Ownership moved: old owner, new owner, id.
    Transferred(u64, u64, u32),
    /// A price was set or cleared: owner, id, price.
    Ask(u64, u32, Option<u64>),
    /// An asset was sold: old owner, buyer, id, price paid.
    Sold(u64, u64, u32, u64),
}

/// Per-byte DNA combination: each bit of the child's byte comes from the
/// first parent where the selector bit is set, from the second otherwise.
pub fn combine_dna(dna1: u8, dna2: u8, selector: u8) -> (r: u8)
    ensures
        r == ((selector & dna1) | (!selector & dna2)),
{
    (selector & dna1) | (!selector & dna2)
}

} // verus!
