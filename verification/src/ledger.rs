//! A model of the external currency ledger: free balances and named stake
//! locks.  The host's currency is an outside collaborator; the operations
//! here give the exact balance and lock bookkeeping the asset operations
//! rely on.  A lock is keyed by the pair of the locked account and an
//! eight-byte lock identifier; setting the same key again replaces the held
//! amount, so re-establishing a lock is idempotent.

use std::collections::HashMap;

use vstd::prelude::*;

use crate::Error;
use crate::keys::{le64, lemma_pair_key_injective, make_pair_key, pair_key, read_le64};

verus! {

broadcast use lemma_pair_key_injective;

/// The lock-table key of lock `id` on account `who`.
pub open spec fn lock_key(who: u64, id: Seq<u8>) -> u128 {
    pair_key(who, le64(id))
}

/// Free balances and stake locks per account.
pub struct Ledger {
    free: HashMap<u64, u64>,
    held: HashMap<u128, u64>,
}

impl Ledger {
    /// The free balance of `who`; accounts start from zero.
    pub closed spec fn balance_of(&self, who: u64) -> u64 {
        if self.free@.contains_key(who) {
            self.free@[who]
        } else {
            0
        }
    }

    /// The lock table: held amount per `(account, lock id)` key.
    pub closed spec fn lock_map(&self) -> Map<u128, u64> {
        self.held@
    }

    pub fn new() -> (r: Ledger)
        ensures
            forall|who: u64| r.balance_of(who) == 0,
            r.lock_map() == Map::<u128, u64>::empty(),
    {
        Ledger { free: HashMap::new(), held: HashMap::new() }
    }

    pub fn free_balance(&self, who: u64) -> (r: u64)
        ensures
            r == self.balance_of(who),
    {
        match self.free.get(&who) {
            Some(b) => *b,
            None => 0,
        }
    }

    /// Endows `who` with a balance, as the host's genesis or a deposit
    /// from outside the asset system would.
    pub fn set_balance(&mut self, who: u64, amount: u64)
        ensures
            final(self).balance_of(who) == amount,
            forall|w: u64| w != who ==> final(self).balance_of(w) == old(self).balance_of(w),
            final(self).lock_map() == old(self).lock_map(),
    {
        self.free.insert(who, amount);
    }

    /// Moves `amount` from `from` to `to`.  A self-payment or a zero
    /// payment succeeds without touching any balance; otherwise the payer
    /// must have the funds and the payee's balance must not overflow.
    pub fn transfer(&mut self, from: u64, to: u64, amount: u64) -> (r: Result<(), Error>)
        ensures
            r is Ok <==> (from == to || amount == 0 || (old(self).balance_of(from) >= amount && old(
                self,
            ).balance_of(to) + amount <= u64::MAX)),
            r == Err::<(), Error>(Error::InsufficientBalance) <==> (from != to && amount != 0 && old(
                self,
            ).balance_of(from) < amount),
            r == Err::<(), Error>(Error::Overflow) <==> (from != to && amount != 0 && old(
                self,
            ).balance_of(from) >= amount && old(self).balance_of(to) + amount > u64::MAX),
            r is Err ==> *final(self) == *old(self),
            (r is Ok && (from == to || amount == 0)) ==> *final(self) == *old(self),
            (r is Ok && from != to && amount != 0) ==> {
                &&& final(self).balance_of(from) == old(self).balance_of(from) - amount
                &&& final(self).balance_of(to) == old(self).balance_of(to) + amount
                &&& forall|w: u64|
                    w != from && w != to ==> final(self).balance_of(w) == old(self).balance_of(w)
                &&& final(self).lock_map() == old(self).lock_map()
            },
    {
        if from == to || amount == 0 {
            return Ok(());
        }
        let bf = self.free_balance(from);
        if bf < amount {
            return Err(Error::InsufficientBalance);
        }
        let bt = self.free_balance(to);
        if bt > u64::MAX - amount {
            return Err(Error::Overflow);
        }
        self.free.insert(from, bf - amount);
        self.free.insert(to, bt + amount);
        Ok(())
    }

    /// Establishes (or replaces) lock `id` on `who` for `amount`.
    pub fn set_lock(&mut self, id: &[u8; 8], who: u64, amount: u64)
        ensures
            final(self).lock_map() == old(self).lock_map().insert(lock_key(who, id@), amount),
            forall|w: u64| final(self).balance_of(w) == old(self).balance_of(w),
    {
        let k = make_pair_key(who, read_le64(id));
        self.held.insert(k, amount);
    }

    /// The amount held under lock `id` on `who`, if that lock exists.
    pub fn lock_amount(&self, id: &[u8; 8], who: u64) -> (r: Option<u64>)
        ensures
            r == (if self.lock_map().contains_key(lock_key(who, id@)) {
                Some(self.lock_map()[lock_key(who, id@)])
            } else {
                None::<u64>
            }),
    {
        let k = make_pair_key(who, read_le64(id));
        match self.held.get(&k) {
            Some(a) => Some(*a),
            None => None,
        }
    }

    /// Removes lock `id` from `who`; removing an absent lock is a no-op.
    pub fn remove_lock(&mut self, id: &[u8; 8], who: u64)
        ensures
            final(self).lock_map() == old(self).lock_map().remove(lock_key(who, id@)),
            forall|w: u64| final(self).balance_of(w) == old(self).balance_of(w),
    {
        let k = make_pair_key(who, read_le64(id));
        self.held.remove(&k);
    }
}

} // verus!
