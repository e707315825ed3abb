//! The asset registry and market: the asset table, the monotone id
//! counter, the per-owner linked ownership index, the lineage tables, the
//! listings, the stake-lock bookkeeping, and the five public operations —
//! create, breed, transfer, ask, buy.

use std::collections::HashMap;

use vstd::prelude::*;

use crate::hashing::{
    blake2_128, blake2_128_of, encode_lock_payload, encode_random_payload, twox_64, twox_64_of,
    u32_le_bytes, u64_le_bytes,
};
use crate::keys::le64;
use crate::ledger::{lock_key, Ledger};
use crate::linked_item::{lemma_push_contains, lemma_remove_at_props, LinkedList};
use crate::{combine_dna, Error, Event, Kitty, LOCK_AMOUNT};

verus! {

/// The payload hashed to derive DNA: the host's randomness seed, the
/// caller, and the per-call sequence number, SCALE-encoded.
pub open spec fn random_payload(seed: Seq<u8>, sender: u64, index: u32) -> Seq<u8> {
    seed + u64_le_bytes(sender) + u32_le_bytes(index)
}

/// The DNA a breeding produces: byte `i` of the child takes its bits from
/// the first parent where selector byte `i` has them set, from the second
/// otherwise.
pub open spec fn combined_dna(dna1: Seq<u8>, dna2: Seq<u8>, selector: Seq<u8>) -> Seq<u8> {
    Seq::new(16, |i: int| ((selector[i] & dna1[i]) | (!selector[i] & dna2[i])) as u8)
}

/// The lock-table key of the stake held for asset `index` by `who`: the
/// lock identifier is the XX digest of the SCALE-encoded pair.
pub open spec fn stake_key(who: u64, index: u32) -> u128 {
    lock_key(who, twox_64_of(u64_le_bytes(who) + u32_le_bytes(index)))
}

/// The ownership index after `id` moves from `from`'s bucket to the tail
/// of `to`'s bucket (also when the two are the same account).
pub open spec fn owned_after_move(owned: Map<u64, Seq<u32>>, from: u64, to: u64, id: u32) -> Map<
    u64,
    Seq<u32>,
> {
    let removed = owned.insert(from, owned[from].remove(owned[from].index_of(id)));
    removed.insert(to, removed[to].push(id))
}

/// The asset ledger: every table of the asset, ownership, lineage and
/// market state, the currency model, and the events emitted so far.
pub struct Kitties {
    kitties: HashMap<u32, Kitty>,
    count: u32,
    owned: LinkedList,
    owners: HashMap<u32, u64>,
    parents: HashMap<u32, (u32, u32)>,
    children: HashMap<u32, Vec<u32>>,
    partners: HashMap<u32, Vec<u32>>,
    prices: HashMap<u32, u64>,
    ledger: Ledger,
    events: Vec<Event>,
}

impl Kitties {
    /// The asset table.
    pub closed spec fn kitties_map(&self) -> Map<u32, Kitty> {
        self.kitties@
    }

    /// The id the next minted asset will take; ids strictly below it are
    /// exactly the minted ones.
    pub closed spec fn count_spec(&self) -> u32 {
        self.count
    }

    /// The direct owner lookup.
    pub closed spec fn owners_map(&self) -> Map<u32, u64> {
        self.owners@
    }

    /// The ownership index: every account's owned ids, in insertion order.
    pub closed spec fn owned_map(&self) -> Map<u64, Seq<u32>> {
        self.owned@
    }

    /// The ids owned by `who`, in insertion order.
    pub open spec fn owned_of(&self, who: u64) -> Seq<u32> {
        self.owned_map()[who]
    }

    /// The parents table.
    pub closed spec fn parents_map(&self) -> Map<u32, (u32, u32)> {
        self.parents@
    }

    /// The recorded children of `id`, oldest first.
    pub closed spec fn children_of(&self, id: u32) -> Seq<u32> {
        if self.children@.contains_key(id) {
            self.children@[id]@
        } else {
            Seq::empty()
        }
    }

    /// The recorded breeding partners of `id`, oldest first, duplicates
    /// kept.
    pub closed spec fn partners_of(&self, id: u32) -> Seq<u32> {
        if self.partners@.contains_key(id) {
            self.partners@[id]@
        } else {
            Seq::empty()
        }
    }

    /// The listed prices; an absent id is not for sale.
    pub closed spec fn prices_map(&self) -> Map<u32, u64> {
        self.prices@
    }

    /// The currency model.
    pub closed spec fn ledger_spec(&self) -> Ledger {
        self.ledger
    }

    /// The free balance of `who` in the currency model.
    pub open spec fn balance_of(&self, who: u64) -> u64 {
        self.ledger_spec().balance_of(who)
    }

    /// The lock table of the currency model.
    pub open spec fn lock_map(&self) -> Map<u128, u64> {
        self.ledger_spec().lock_map()
    }

    /// The events emitted so far, oldest first.
    pub closed spec fn events_seq(&self) -> Seq<Event> {
        self.events@
    }

    /// Well-formedness: the ownership index is a well-formed chain store,
    /// exactly the minted ids have an asset and an owner, the owner lookup
    /// and the ownership index agree both ways, and only minted ids are
    /// listed.
    pub closed spec fn inv(&self) -> bool {
        &&& self.owned.wf()
        &&& forall|id: u32| self.kitties@.contains_key(id) <==> id < self.count
        &&& forall|id: u32| self.owners@.contains_key(id) <==> id < self.count
        &&& forall|id: u32| id < self.count ==> self.owned@[#[trigger] self.owners@[id]].contains(id)
        &&& forall|who: u64, id: u32| #[trigger]
            self.owned@[who].contains(id) ==> self.owners@.contains_key(id) && self.owners@[id]
                == who
        &&& forall|id: u32| #[trigger] self.prices@.contains_key(id) ==> id < self.count
    }

    /// A fresh, empty ledger.
    pub fn new() -> (r: Kitties)
        ensures
            r.inv(),
            r.count_spec() == 0,
            r.kitties_map() == Map::<u32, Kitty>::empty(),
            r.owners_map() == Map::<u32, u64>::empty(),
            forall|who: u64| r.owned_of(who) == Seq::<u32>::empty(),
            r.parents_map() == Map::<u32, (u32, u32)>::empty(),
            forall|id: u32| r.children_of(id) == Seq::<u32>::empty(),
            forall|id: u32| r.partners_of(id) == Seq::<u32>::empty(),
            r.prices_map() == Map::<u32, u64>::empty(),
            forall|who: u64| r.balance_of(who) == 0,
            r.lock_map() == Map::<u128, u64>::empty(),
            r.events_seq() == Seq::<Event>::empty(),
    {
        Kitties {
            kitties: HashMap::new(),
            count: 0,
            owned: LinkedList::new(),
            owners: HashMap::new(),
            parents: HashMap::new(),
            children: HashMap::new(),
            partners: HashMap::new(),
            prices: HashMap::new(),
            ledger: Ledger::new(),
            events: Vec::new(),
        }
    }

    /// Endows `who` with a free balance, as the host's genesis would.
    pub fn set_balance(&mut self, who: u64, amount: u64)
        requires
            old(self).inv(),
        ensures
            final(self).inv(),
            final(self).balance_of(who) == amount,
            forall|w: u64| w != who ==> final(self).balance_of(w) == old(self).balance_of(w),
            final(self).lock_map() == old(self).lock_map(),
            final(self).kitties_map() == old(self).kitties_map(),
            final(self).count_spec() == old(self).count_spec(),
            final(self).owners_map() == old(self).owners_map(),
            forall|w: u64| final(self).owned_of(w) == old(self).owned_of(w),
            final(self).parents_map() == old(self).parents_map(),
            forall|id: u32| final(self).children_of(id) == old(self).children_of(id),
            forall|id: u32| final(self).partners_of(id) == old(self).partners_of(id),
            final(self).prices_map() == old(self).prices_map(),
            final(self).events_seq() == old(self).events_seq(),
    {
        self.ledger.set_balance(who, amount);
    }

    /// Derives the 128-bit DNA selector from the randomness seed, the
    /// caller and the per-call sequence number, domain-separated so that
    /// repeated calls in the same context do not collide.
    pub fn random_value(seed: &[u8; 32], sender: u64, index: u32) -> (r: [u8; 16])
        ensures
            r@ == blake2_128_of(random_payload(seed@, sender, index)),
            r@.len() == 16,
    {
        let payload = encode_random_payload(seed, sender, index);
        blake2_128(payload.as_slice())
    }

    /// Derives the stake-lock identifier for `(account, index)`,
    /// deterministic in its arguments so that re-establishing the lock
    /// after a transfer addresses the same lock again.
    pub fn gen_lock_id(account: u64, index: u32) -> (r: [u8; 8])
        ensures
            r@ == twox_64_of(u64_le_bytes(account) + u32_le_bytes(index)),
            le64(r@) == le64(twox_64_of(u64_le_bytes(account) + u32_le_bytes(index))),
    {
        let payload = encode_lock_payload(account, index);
        twox_64(payload.as_slice())
    }

    /// The id the next mint will take, or the counter failure once the
    /// counter can no longer grow past it.
    fn next_kitty_id(&self) -> (r: Result<u32, Error>)
        ensures
            r == (if self.count_spec() == u32::MAX {
                Err::<u32, Error>(Error::KittiesCountOverflow)
            } else {
                Ok::<u32, Error>(self.count_spec())
            }),
    {
        let kitty_id = self.count;
        if kitty_id == u32::MAX {
            return Err(Error::KittiesCountOverflow);
        }
        Ok(kitty_id)
    }

    /// The caller must hold at least the stake amount before creating or
    /// acquiring an asset.
    fn check_balance(&self, sender: u64) -> (r: Result<(), Error>)
        ensures
            r == (if self.balance_of(sender) < LOCK_AMOUNT as u64 {
                Err::<(), Error>(Error::BalanceNotEnough)
            } else {
                Ok::<(), Error>(())
            }),
    {
        if self.ledger.free_balance(sender) < LOCK_AMOUNT as u64 {
            return Err(Error::BalanceNotEnough);
        }
        Ok(())
    }

    /// Stakes the lock amount for `(sender, kitty_index)`.
    fn account_lock(&mut self, sender: u64, kitty_index: u32)
        ensures
            final(self).ledger.lock_map() == old(self).ledger.lock_map().insert(
                stake_key(sender, kitty_index),
                LOCK_AMOUNT as u64,
            ),
            forall|w: u64| final(self).ledger.balance_of(w) == old(self).ledger.balance_of(w),
            final(self).kitties == old(self).kitties,
            final(self).count == old(self).count,
            final(self).owned == old(self).owned,
            final(self).owners == old(self).owners,
            final(self).parents == old(self).parents,
            final(self).children == old(self).children,
            final(self).partners == old(self).partners,
            final(self).prices == old(self).prices,
            final(self).events == old(self).events,
    {
        let lock_id = Self::gen_lock_id(sender, kitty_index);
        self.ledger.set_lock(&lock_id, sender, LOCK_AMOUNT as u64);
    }

    /// Migrates the stake on a transfer: clears any stale lock under the
    /// destination's key, stakes for the destination, and releases the
    /// source's lock.
    fn transfer_lock(&mut self, from: u64, to: u64, kitty_index: u32)
        ensures
            final(self).ledger.lock_map() == old(self).ledger.lock_map().insert(
                stake_key(to, kitty_index),
                LOCK_AMOUNT as u64,
            ).remove(stake_key(from, kitty_index)),
            forall|w: u64| final(self).ledger.balance_of(w) == old(self).ledger.balance_of(w),
            final(self).kitties == old(self).kitties,
            final(self).count == old(self).count,
            final(self).owned == old(self).owned,
            final(self).owners == old(self).owners,
            final(self).parents == old(self).parents,
            final(self).children == old(self).children,
            final(self).partners == old(self).partners,
            final(self).prices == old(self).prices,
            final(self).events == old(self).events,
    {
        let old_lock_id = Self::gen_lock_id(to, kitty_index);
        self.ledger.remove_lock(&old_lock_id, to);
        self.account_lock(to, kitty_index);
        let from_lock_id = Self::gen_lock_id(from, kitty_index);
        self.ledger.remove_lock(&from_lock_id, from);
        proof {
            assert(self.ledger.lock_map() =~= old(self).ledger.lock_map().insert(
                stake_key(to, kitty_index),
                LOCK_AMOUNT as u64,
            ).remove(stake_key(from, kitty_index)));
        }
    }

    /// Appends `kitty_id` to `owner`'s chain and records the direct owner
    /// lookup.
    fn insert_owned_kitty(&mut self, owner: u64, kitty_id: u32)
        requires
            old(self).owned.wf(),
            !old(self).owned@[owner].contains(kitty_id),
        ensures
            final(self).owned.wf(),
            final(self).owned@ == old(self).owned@.insert(
                owner,
                old(self).owned@[owner].push(kitty_id),
            ),
            final(self).owners@ == old(self).owners@.insert(kitty_id, owner),
            final(self).kitties == old(self).kitties,
            final(self).count == old(self).count,
            final(self).parents == old(self).parents,
            final(self).children == old(self).children,
            final(self).partners == old(self).partners,
            final(self).prices == old(self).prices,
            final(self).ledger == old(self).ledger,
            final(self).events == old(self).events,
    {
        self.owned.append(owner, kitty_id);
        self.owners.insert(kitty_id, owner);
    }

    /// Stores a freshly minted asset under the next id, advances the
    /// counter, and indexes the asset under its owner.
    fn insert_kitty(&mut self, owner: u64, kitty_id: u32, kitty: Kitty)
        requires
            old(self).owned.wf(),
            !old(self).owned@[owner].contains(kitty_id),
            kitty_id == old(self).count,
            old(self).count < u32::MAX,
        ensures
            final(self).owned.wf(),
            final(self).kitties@ == old(self).kitties@.insert(kitty_id, kitty),
            final(self).count == kitty_id + 1,
            final(self).owned@ == old(self).owned@.insert(
                owner,
                old(self).owned@[owner].push(kitty_id),
            ),
            final(self).owners@ == old(self).owners@.insert(kitty_id, owner),
            final(self).parents == old(self).parents,
            final(self).children == old(self).children,
            final(self).partners == old(self).partners,
            final(self).prices == old(self).prices,
            final(self).ledger == old(self).ledger,
            final(self).events == old(self).events,
    {
        self.kitties.insert(kitty_id, kitty);
        self.count = kitty_id + 1;
        self.insert_owned_kitty(owner, kitty_id);
    }

    /// Creates a fresh asset for `sender`: checks the counter and the
    /// stake balance, stakes the lock, derives DNA from the seed, stores
    /// and indexes the asset, and emits `Created`.
    pub fn create(&mut self, sender: u64, seed: &[u8; 32], index: u32) -> (r: Result<u32, Error>)
        requires
            old(self).inv(),
        ensures
            final(self).inv(),
            (r == Err::<u32, Error>(Error::KittiesCountOverflow)) <==> old(self).count_spec()
                == u32::MAX,
            (r == Err::<u32, Error>(Error::BalanceNotEnough)) <==> (old(self).count_spec()
                < u32::MAX && old(self).balance_of(sender) < LOCK_AMOUNT as u64),
            r is Ok <==> (old(self).count_spec() < u32::MAX && old(self).balance_of(sender)
                >= LOCK_AMOUNT as u64),
            r is Err ==> *final(self) == *old(self),
            r is Ok ==> r == Ok::<u32, Error>(old(self).count_spec()),
            r is Ok ==> ({
                let id = old(self).count_spec();
                &&& old(self).count_spec() < u32::MAX
                &&& old(self).balance_of(sender) >= LOCK_AMOUNT as u64
                &&& final(self).count_spec() == id + 1
                &&& final(self).kitties_map().contains_key(id)
                &&& final(self).kitties_map()[id].dna@ == blake2_128_of(
                    random_payload(seed@, sender, index),
                )
                &&& forall|x: u32|
                    x != id ==> (final(self).kitties_map().contains_key(x) <==> old(self).kitties_map().contains_key(x))
                &&& forall|x: u32|
                    x != id && old(self).kitties_map().contains_key(x) ==> final(self).kitties_map()[x] == old(self).kitties_map()[x]
                &&& final(self).owners_map() == old(self).owners_map().insert(id, sender)
                &&& final(self).owned_map() == old(self).owned_map().insert(
                    sender,
                    old(self).owned_of(sender).push(id),
                )
                &&& final(self).lock_map() == old(self).lock_map().insert(
                    stake_key(sender, id),
                    LOCK_AMOUNT as u64,
                )
                &&& forall|w: u64| final(self).balance_of(w) == old(self).balance_of(w)
                &&& final(self).prices_map() == old(self).prices_map()
                &&& final(self).parents_map() == old(self).parents_map()
                &&& forall|x: u32| final(self).children_of(x) == old(self).children_of(x)
                &&& forall|x: u32| final(self).partners_of(x) == old(self).partners_of(x)
                &&& final(self).events_seq() == old(self).events_seq().push(
                    Event::Created(sender, id),
                )
            }),
    {
        let kitty_index = match self.next_kitty_id() {
            Ok(id) => id,
            Err(e) => {
                return Err(e);
            },
        };
        match self.check_balance(sender) {
            Ok(()) => {},
            Err(e) => {
                return Err(e);
            },
        }
        self.account_lock(sender, kitty_index);
        let dna = Self::random_value(seed, sender, index);
        let new_kitty = Kitty { dna };
        proof {
            assert(!old(self).owned@[sender].contains(kitty_index)) by {
                if old(self).owned@[sender].contains(kitty_index) {
                    assert(old(self).owners@.contains_key(kitty_index));
                    assert(kitty_index < old(self).count);
                }
            }
        }
        self.insert_kitty(sender, kitty_index, new_kitty);
        self.events.push(Event::Created(sender, kitty_index));
        proof {
            self.lemma_inv_after_mint(*old(self), sender, kitty_index);
        }
        Ok(kitty_index)
    }

    /// Minting preserves well-formedness: the new id is fresh, goes to one
    /// bucket only, and every agreement between the owner lookup and the
    /// ownership index carries over.
    proof fn lemma_inv_after_mint(&self, prev: Kitties, owner: u64, id: u32)
        requires
            prev.inv(),
            id == prev.count,
            prev.count < u32::MAX,
            self.owned.wf(),
            self.count == id + 1,
            forall|x: u32| self.kitties@.contains_key(x) <==> (prev.kitties@.contains_key(x) || x == id),
            self.owners@ == prev.owners@.insert(id, owner),
            self.owned@ == prev.owned@.insert(owner, prev.owned@[owner].push(id)),
            self.prices@ == prev.prices@,
        ensures
            self.inv(),
    {
        assert forall|id2: u32| id2 < self.count implies self.owned@[#[trigger] self.owners@[id2]].contains(
            id2,
        ) by {
            if id2 == id {
                assert(self.owners@[id2] == owner);
                lemma_push_contains(prev.owned@[owner], id, id2);
            } else {
                assert(id2 < prev.count);
                assert(self.owners@[id2] == prev.owners@[id2]);
                let w = prev.owners@[id2];
                assert(prev.owned@[w].contains(id2));
                if w == owner {
                    lemma_push_contains(prev.owned@[owner], id, id2);
                }
            }
        }
        assert forall|who: u64, id2: u32| #[trigger]
            self.owned@[who].contains(id2) implies self.owners@.contains_key(id2)
            && self.owners@[id2] == who by {
            if who == owner {
                lemma_push_contains(prev.owned@[owner], id, id2);
                if id2 == id {
                } else {
                    assert(prev.owned@[owner].contains(id2));
                    assert(prev.owners@[id2] == owner);
                }
            } else {
                assert(prev.owned@[who].contains(id2));
                assert(prev.owners@[id2] == who);
                assert(prev.owners@.contains_key(id2));
                assert(id2 < prev.count);
            }
        }
    }

    /// Moves `kitty_id` from `from`'s chain to the tail of `to`'s chain
    /// and redirects the direct owner lookup; the pair is one indivisible
    /// step with no failure between its halves.
    fn do_transfer(&mut self, from: u64, to: u64, kitty_id: u32)
        requires
            old(self).inv(),
            old(self).owned@[from].contains(kitty_id),
        ensures
            final(self).inv(),
            final(self).owned@ == owned_after_move(old(self).owned@, from, to, kitty_id),
            final(self).owners@ == old(self).owners@.insert(kitty_id, to),
            final(self).kitties == old(self).kitties,
            final(self).count == old(self).count,
            final(self).parents == old(self).parents,
            final(self).children == old(self).children,
            final(self).partners == old(self).partners,
            final(self).prices == old(self).prices,
            final(self).ledger == old(self).ledger,
            final(self).events == old(self).events,
    {
        proof {
            self.owned.lemma_no_duplicates(from);
            lemma_remove_at_props(self.owned@[from], kitty_id);
            assert(old(self).owners@[kitty_id] == from);
        }
        self.owned.remove(from, kitty_id);
        proof {
            assert(!self.owned@[to].contains(kitty_id)) by {
                if to != from && old(self).owned@[to].contains(kitty_id) {
                    assert(old(self).owners@[kitty_id] == to);
                }
            }
        }
        self.insert_owned_kitty(to, kitty_id);
        proof {
            self.lemma_inv_after_transfer(*old(self), from, to, kitty_id);
        }
    }

    /// Moving one asset between buckets keeps every agreement between the
    /// owner lookup and the ownership index.
    proof fn lemma_inv_after_transfer(&self, prev: Kitties, from: u64, to: u64, id: u32)
        requires
            prev.inv(),
            prev.owned@[from].contains(id),
            self.owned.wf(),
            self.count == prev.count,
            self.kitties == prev.kitties,
            self.prices == prev.prices,
            self.owners@ == prev.owners@.insert(id, to),
            self.owned@ == owned_after_move(prev.owned@, from, to, id),
        ensures
            self.inv(),
    {
        prev.owned.lemma_no_duplicates(from);
        lemma_remove_at_props(prev.owned@[from], id);
        let removed = prev.owned@[from].remove(prev.owned@[from].index_of(id));
        let removed_map = prev.owned@.insert(from, removed);
        let base = removed_map[to];
        assert(prev.owners@[id] == from);
        assert(id < prev.count);
        assert forall|id2: u32| id2 < self.count implies self.owned@[#[trigger] self.owners@[id2]].contains(
            id2,
        ) by {
            if id2 == id {
                assert(self.owners@[id2] == to);
                lemma_push_contains(base, id, id2);
            } else {
                let w = prev.owners@[id2];
                assert(self.owners@[id2] == w);
                assert(prev.owned@[w].contains(id2));
                if w == to {
                    lemma_push_contains(base, id, id2);
                } else if w == from {
                    assert(self.owned@[w] == removed);
                } else {
                    assert(self.owned@[w] == prev.owned@[w]);
                }
            }
        }
        assert forall|who: u64, id2: u32| #[trigger]
            self.owned@[who].contains(id2) implies self.owners@.contains_key(id2)
            && self.owners@[id2] == who by {
            if who == to {
                lemma_push_contains(base, id, id2);
                if id2 == id {
                } else {
                    assert(base.contains(id2));
                    assert(prev.owned@[to].contains(id2));
                    assert(prev.owners@[id2] == to);
                }
            } else if who == from {
                assert(self.owned@[who] == removed);
                assert(prev.owned@[from].contains(id2));
                assert(id2 != id);
                assert(prev.owners@[id2] == from);
            } else {
                assert(self.owned@[who] == prev.owned@[who]);
                assert(prev.owners@[id2] == who);
                assert(id2 != id);
            }
        }
    }

    /// Hands `kitty_index` from `sender` to `to`: the caller must own the
    /// asset and hold the stake amount; the asset moves to the tail of
    /// `to`'s list, the stake lock migrates, and `Transferred` is emitted.
    pub fn transfer(&mut self, sender: u64, to: u64, kitty_index: u32) -> (r: Result<(), Error>)
        requires
            old(self).inv(),
        ensures
            final(self).inv(),
            (r == Err::<(), Error>(Error::RequireOwner)) <==> !old(self).owned_of(sender).contains(
                kitty_index,
            ),
            (r == Err::<(), Error>(Error::BalanceNotEnough)) <==> (old(self).owned_of(
                sender,
            ).contains(kitty_index) && old(self).balance_of(sender) < LOCK_AMOUNT as u64),
            r is Ok <==> (old(self).owned_of(sender).contains(kitty_index) && old(self).balance_of(
                sender,
            ) >= LOCK_AMOUNT as u64),
            r is Err ==> *final(self) == *old(self),
            r is Ok ==> ({
                &&& old(self).owned_of(sender).contains(kitty_index)
                &&& old(self).balance_of(sender) >= LOCK_AMOUNT as u64
                &&& final(self).owned_map() == owned_after_move(
                    old(self).owned_map(),
                    sender,
                    to,
                    kitty_index,
                )
                &&& final(self).owners_map() == old(self).owners_map().insert(kitty_index, to)
                &&& final(self).lock_map() == old(self).lock_map().insert(
                    stake_key(to, kitty_index),
                    LOCK_AMOUNT as u64,
                ).remove(stake_key(sender, kitty_index))
                &&& forall|w: u64| final(self).balance_of(w) == old(self).balance_of(w)
                &&& final(self).kitties_map() == old(self).kitties_map()
                &&& final(self).count_spec() == old(self).count_spec()
                &&& final(self).prices_map() == old(self).prices_map()
                &&& final(self).parents_map() == old(self).parents_map()
                &&& forall|x: u32| final(self).children_of(x) == old(self).children_of(x)
                &&& forall|x: u32| final(self).partners_of(x) == old(self).partners_of(x)
                &&& final(self).events_seq() == old(self).events_seq().push(
                    Event::Transferred(sender, to, kitty_index),
                )
            }),
    {
        if !self.owned.contains(sender, kitty_index) {
            return Err(Error::RequireOwner);
        }
        match self.check_balance(sender) {
            Ok(()) => {},
            Err(e) => {
                return Err(e);
            },
        }
        self.do_transfer(sender, to, kitty_index);
        self.transfer_lock(sender, to, kitty_index);
        self.events.push(Event::Transferred(sender, to, kitty_index));
        Ok(())
    }

    /// Sets or clears the sale price of `kitty_id`: only its owner may,
    /// `None` delists, and `Ask` is emitted.
    pub fn ask(&mut self, sender: u64, kitty_id: u32, new_price: Option<u64>) -> (r: Result<
        (),
        Error,
    >)
        requires
            old(self).inv(),
        ensures
            final(self).inv(),
            (r == Err::<(), Error>(Error::RequireOwner)) <==> !old(self).owned_of(sender).contains(
                kitty_id,
            ),
            r is Ok <==> old(self).owned_of(sender).contains(kitty_id),
            r is Err ==> *final(self) == *old(self),
            r is Ok ==> ({
                &&& old(self).owned_of(sender).contains(kitty_id)
                &&& final(self).prices_map() == (match new_price {
                    Some(p) => old(self).prices_map().insert(kitty_id, p),
                    None => old(self).prices_map().remove(kitty_id),
                })
                &&& final(self).kitties_map() == old(self).kitties_map()
                &&& final(self).count_spec() == old(self).count_spec()
                &&& final(self).owners_map() == old(self).owners_map()
                &&& final(self).owned_map() == old(self).owned_map()
                &&& final(self).parents_map() == old(self).parents_map()
                &&& forall|x: u32| final(self).children_of(x) == old(self).children_of(x)
                &&& forall|x: u32| final(self).partners_of(x) == old(self).partners_of(x)
                &&& final(self).lock_map() == old(self).lock_map()
                &&& forall|w: u64| final(self).balance_of(w) == old(self).balance_of(w)
                &&& final(self).events_seq() == old(self).events_seq().push(
                    Event::Ask(sender, kitty_id, new_price),
                )
            }),
    {
        if !self.owned.contains(sender, kitty_id) {
            return Err(Error::RequireOwner);
        }
        proof {
            assert(old(self).owners@.contains_key(kitty_id));
            assert(kitty_id < old(self).count);
        }
        match new_price {
            Some(p) => {
                self.prices.insert(kitty_id, p);
            },
            None => {
                self.prices.remove(&kitty_id);
            },
        }
        self.events.push(Event::Ask(sender, kitty_id, new_price));
        proof {
            assert forall|id: u32| #[trigger] self.prices@.contains_key(id) implies id
                < self.count by {
                if id != kitty_id {
                    assert(old(self).prices@.contains_key(id));
                }
            }
        }
        Ok(())
    }

    /// Breeds a child for `sender` from two parents it owns: the child's
    /// DNA takes each bit from one parent or the other as the selector
    /// directs, and the parents, children and partners tables are all
    /// extended.
    fn do_breed(
        &mut self,
        sender: u64,
        kitty_id_1: u32,
        kitty_id_2: u32,
        seed: &[u8; 32],
        index: u32,
    ) -> (r: Result<u32, Error>)
        requires
            old(self).inv(),
        ensures
            final(self).inv(),
            (r == Err::<u32, Error>(Error::InvalidKittyId)) <==> (!old(self).kitties_map().contains_key(
                kitty_id_1,
            ) || !old(self).kitties_map().contains_key(kitty_id_2)),
            (r == Err::<u32, Error>(Error::RequireOwner)) <==> (old(self).kitties_map().contains_key(
                kitty_id_1,
            ) && old(self).kitties_map().contains_key(kitty_id_2) && (!old(self).owned_of(
                sender,
            ).contains(kitty_id_1) || !old(self).owned_of(sender).contains(kitty_id_2))),
            (r == Err::<u32, Error>(Error::RequireDifferentParent)) <==> (old(self).kitties_map().contains_key(
                kitty_id_1,
            ) && old(self).kitties_map().contains_key(kitty_id_2) && old(self).owned_of(
                sender,
            ).contains(kitty_id_1) && old(self).owned_of(sender).contains(kitty_id_2)
                && kitty_id_1 == kitty_id_2),
            (r == Err::<u32, Error>(Error::KittiesCountOverflow)) <==> (old(self).kitties_map().contains_key(
                kitty_id_1,
            ) && old(self).kitties_map().contains_key(kitty_id_2) && old(self).owned_of(
                sender,
            ).contains(kitty_id_1) && old(self).owned_of(sender).contains(kitty_id_2)
                && kitty_id_1 != kitty_id_2 && old(self).count_spec() == u32::MAX),
            r is Err ==> (r == Err::<u32, Error>(Error::InvalidKittyId) || r == Err::<u32, Error>(
                Error::RequireOwner,
            ) || r == Err::<u32, Error>(Error::RequireDifferentParent) || r == Err::<u32, Error>(
                Error::KittiesCountOverflow,
            )),
            r is Err ==> *final(self) == *old(self),
            r is Ok ==> r == Ok::<u32, Error>(old(self).count_spec()),
            r is Ok ==> ({
                let child = old(self).count_spec();
                &&& old(self).kitties_map().contains_key(kitty_id_1)
                &&& old(self).kitties_map().contains_key(kitty_id_2)
                &&& old(self).owned_of(sender).contains(kitty_id_1)
                &&& old(self).owned_of(sender).contains(kitty_id_2)
                &&& kitty_id_1 != kitty_id_2
                &&& old(self).count_spec() < u32::MAX
                &&& final(self).count_spec() == child + 1
                &&& final(self).kitties_map().contains_key(child)
                &&& final(self).kitties_map()[child].dna@ == combined_dna(
                    old(self).kitties_map()[kitty_id_1].dna@,
                    old(self).kitties_map()[kitty_id_2].dna@,
                    blake2_128_of(random_payload(seed@, sender, index)),
                )
                &&& forall|x: u32|
                    x != child ==> (final(self).kitties_map().contains_key(x) <==> old(
                        self,
                    ).kitties_map().contains_key(x))
                &&& forall|x: u32|
                    x != child && old(self).kitties_map().contains_key(x) ==> final(self).kitties_map()[x]
                        == old(self).kitties_map()[x]
                &&& final(self).owners_map() == old(self).owners_map().insert(child, sender)
                &&& final(self).owned_map() == old(self).owned_map().insert(
                    sender,
                    old(self).owned_of(sender).push(child),
                )
                &&& final(self).parents_map() == old(self).parents_map().insert(
                    child,
                    (kitty_id_1, kitty_id_2),
                )
                &&& final(self).children_of(kitty_id_1) == old(self).children_of(kitty_id_1).push(
                    child,
                )
                &&& final(self).children_of(kitty_id_2) == old(self).children_of(kitty_id_2).push(
                    child,
                )
                &&& forall|x: u32|
                    x != kitty_id_1 && x != kitty_id_2 ==> final(self).children_of(x) == old(
                        self,
                    ).children_of(x)
                &&& final(self).partners_of(kitty_id_1) == old(self).partners_of(kitty_id_1).push(
                    kitty_id_2,
                )
                &&& final(self).partners_of(kitty_id_2) == old(self).partners_of(kitty_id_2).push(
                    kitty_id_1,
                )
                &&& forall|x: u32|
                    x != kitty_id_1 && x != kitty_id_2 ==> final(self).partners_of(x) == old(
                        self,
                    ).partners_of(x)
                &&& final(self).prices_map() == old(self).prices_map()
                &&& final(self).lock_map() == old(self).lock_map()
                &&& forall|w: u64| final(self).balance_of(w) == old(self).balance_of(w)
                &&& final(self).events_seq() == old(self).events_seq()
            }),
    {
        let kitty1 = match self.kitties.get(&kitty_id_1) {
            Some(k) => *k,
            None => {
                return Err(Error::InvalidKittyId);
            },
        };
        let kitty2 = match self.kitties.get(&kitty_id_2) {
            Some(k) => *k,
            None => {
                return Err(Error::InvalidKittyId);
            },
        };
        if !self.owned.contains(sender, kitty_id_1) {
            return Err(Error::RequireOwner);
        }
        if !self.owned.contains(sender, kitty_id_2) {
            return Err(Error::RequireOwner);
        }
        if kitty_id_1 == kitty_id_2 {
            return Err(Error::RequireDifferentParent);
        }
        let kitty_index = match self.next_kitty_id() {
            Ok(id) => id,
            Err(e) => {
                return Err(e);
            },
        };
        let selector = Self::random_value(seed, sender, index);
        let new_dna: [u8; 16] = [
            combine_dna(kitty1.dna[0], kitty2.dna[0], selector[0]),
            combine_dna(kitty1.dna[1], kitty2.dna[1], selector[1]),
            combine_dna(kitty1.dna[2], kitty2.dna[2], selector[2]),
            combine_dna(kitty1.dna[3], kitty2.dna[3], selector[3]),
            combine_dna(kitty1.dna[4], kitty2.dna[4], selector[4]),
            combine_dna(kitty1.dna[5], kitty2.dna[5], selector[5]),
            combine_dna(kitty1.dna[6], kitty2.dna[6], selector[6]),
            combine_dna(kitty1.dna[7], kitty2.dna[7], selector[7]),
            combine_dna(kitty1.dna[8], kitty2.dna[8], selector[8]),
            combine_dna(kitty1.dna[9], kitty2.dna[9], selector[9]),
            combine_dna(kitty1.dna[10], kitty2.dna[10], selector[10]),
            combine_dna(kitty1.dna[11], kitty2.dna[11], selector[11]),
            combine_dna(kitty1.dna[12], kitty2.dna[12], selector[12]),
            combine_dna(kitty1.dna[13], kitty2.dna[13], selector[13]),
            combine_dna(kitty1.dna[14], kitty2.dna[14], selector[14]),
            combine_dna(kitty1.dna[15], kitty2.dna[15], selector[15]),
        ];
        proof {
            assert(new_dna@ =~= combined_dna(kitty1.dna@, kitty2.dna@, selector@));
            assert(!old(self).owned@[sender].contains(kitty_index)) by {
                if old(self).owned@[sender].contains(kitty_index) {
                    assert(old(self).owners@.contains_key(kitty_index));
                    assert(kitty_index < old(self).count);
                }
            }
        }
        self.insert_kitty(sender, kitty_index, Kitty { dna: new_dna });
        self.parents.insert(kitty_index, (kitty_id_1, kitty_id_2));
        let mut partner_1 = match self.partners.remove(&kitty_id_1) {
            Some(v) => v,
            None => Vec::new(),
        };
        partner_1.push(kitty_id_2);
        self.partners.insert(kitty_id_1, partner_1);
        let mut partner_2 = match self.partners.remove(&kitty_id_2) {
            Some(v) => v,
            None => Vec::new(),
        };
        partner_2.push(kitty_id_1);
        self.partners.insert(kitty_id_2, partner_2);
        let mut children_1 = match self.children.remove(&kitty_id_1) {
            Some(v) => v,
            None => Vec::new(),
        };
        children_1.push(kitty_index);
        self.children.insert(kitty_id_1, children_1);
        let mut children_2 = match self.children.remove(&kitty_id_2) {
            Some(v) => v,
            None => Vec::new(),
        };
        children_2.push(kitty_index);
        self.children.insert(kitty_id_2, children_2);
        proof {
            self.lemma_inv_after_mint(*old(self), sender, kitty_index);
        }
        Ok(kitty_index)
    }

    /// Breeds a child of two assets `sender` owns: checks the stake
    /// balance, breeds, stakes the lock for the child, and emits
    /// `Breeded`.
    pub fn breed(
        &mut self,
        sender: u64,
        kitty_id_1: u32,
        kitty_id_2: u32,
        seed: &[u8; 32],
        index: u32,
    ) -> (r: Result<u32, Error>)
        requires
            old(self).inv(),
        ensures
            final(self).inv(),
            (r == Err::<u32, Error>(Error::BalanceNotEnough)) <==> old(self).balance_of(sender)
                < LOCK_AMOUNT as u64,
            (r == Err::<u32, Error>(Error::InvalidKittyId)) <==> (old(self).balance_of(sender)
                >= LOCK_AMOUNT as u64 && (!old(self).kitties_map().contains_key(kitty_id_1) || !old(
                self,
            ).kitties_map().contains_key(kitty_id_2))),
            (r == Err::<u32, Error>(Error::RequireOwner)) <==> (old(self).balance_of(sender)
                >= LOCK_AMOUNT as u64 && old(self).kitties_map().contains_key(kitty_id_1) && old(
                self,
            ).kitties_map().contains_key(kitty_id_2) && (!old(self).owned_of(sender).contains(
                kitty_id_1,
            ) || !old(self).owned_of(sender).contains(kitty_id_2))),
            (r == Err::<u32, Error>(Error::RequireDifferentParent)) <==> (old(self).balance_of(
                sender,
            ) >= LOCK_AMOUNT as u64 && old(self).kitties_map().contains_key(kitty_id_1) && old(
                self,
            ).kitties_map().contains_key(kitty_id_2) && old(self).owned_of(sender).contains(
                kitty_id_1,
            ) && old(self).owned_of(sender).contains(kitty_id_2) && kitty_id_1 == kitty_id_2),
            (r == Err::<u32, Error>(Error::KittiesCountOverflow)) <==> (old(self).balance_of(sender)
                >= LOCK_AMOUNT as u64 && old(self).kitties_map().contains_key(kitty_id_1) && old(
                self,
            ).kitties_map().contains_key(kitty_id_2) && old(self).owned_of(sender).contains(
                kitty_id_1,
            ) && old(self).owned_of(sender).contains(kitty_id_2) && kitty_id_1 != kitty_id_2 && old(
                self,
            ).count_spec() == u32::MAX),
            r is Ok <==> (old(self).balance_of(sender) >= LOCK_AMOUNT as u64 && old(
                self,
            ).kitties_map().contains_key(kitty_id_1) && old(self).kitties_map().contains_key(
                kitty_id_2,
            ) && old(self).owned_of(sender).contains(kitty_id_1) && old(self).owned_of(
                sender,
            ).contains(kitty_id_2) && kitty_id_1 != kitty_id_2 && old(self).count_spec()
                < u32::MAX),
            r is Err ==> *final(self) == *old(self),
            r is Ok ==> r == Ok::<u32, Error>(old(self).count_spec()),
            r is Ok ==> ({
                let child = old(self).count_spec();
                &&& old(self).balance_of(sender) >= LOCK_AMOUNT as u64
                &&& final(self).count_spec() == child + 1
                &&& final(self).kitties_map().contains_key(child)
                &&& final(self).kitties_map()[child].dna@ == combined_dna(
                    old(self).kitties_map()[kitty_id_1].dna@,
                    old(self).kitties_map()[kitty_id_2].dna@,
                    blake2_128_of(random_payload(seed@, sender, index)),
                )
                &&& forall|x: u32|
                    x != child ==> (final(self).kitties_map().contains_key(x) <==> old(
                        self,
                    ).kitties_map().contains_key(x))
                &&& forall|x: u32|
                    x != child && old(self).kitties_map().contains_key(x) ==> final(self).kitties_map()[x]
                        == old(self).kitties_map()[x]
                &&& final(self).owners_map() == old(self).owners_map().insert(child, sender)
                &&& final(self).owned_map() == old(self).owned_map().insert(
                    sender,
                    old(self).owned_of(sender).push(child),
                )
                &&& final(self).parents_map() == old(self).parents_map().insert(
                    child,
                    (kitty_id_1, kitty_id_2),
                )
                &&& final(self).children_of(kitty_id_1) == old(self).children_of(kitty_id_1).push(
                    child,
                )
                &&& final(self).children_of(kitty_id_2) == old(self).children_of(kitty_id_2).push(
                    child,
                )
                &&& forall|x: u32|
                    x != kitty_id_1 && x != kitty_id_2 ==> final(self).children_of(x) == old(
                        self,
                    ).children_of(x)
                &&& final(self).partners_of(kitty_id_1) == old(self).partners_of(kitty_id_1).push(
                    kitty_id_2,
                )
                &&& final(self).partners_of(kitty_id_2) == old(self).partners_of(kitty_id_2).push(
                    kitty_id_1,
                )
                &&& forall|x: u32|
                    x != kitty_id_1 && x != kitty_id_2 ==> final(self).partners_of(x) == old(
                        self,
                    ).partners_of(x)
                &&& final(self).prices_map() == old(self).prices_map()
                &&& final(self).lock_map() == old(self).lock_map().insert(
                    stake_key(sender, child),
                    LOCK_AMOUNT as u64,
                )
                &&& forall|w: u64| final(self).balance_of(w) == old(self).balance_of(w)
                &&& final(self).events_seq() == old(self).events_seq().push(
                    Event::Breeded(sender, child),
                )
            }),
    {
        match self.check_balance(sender) {
            Ok(()) => {},
            Err(e) => {
                return Err(e);
            },
        }
        let new_kitty_index = match self.do_breed(sender, kitty_id_1, kitty_id_2, seed, index) {
            Ok(id) => id,
            Err(e) => {
                return Err(e);
            },
        };
        self.account_lock(sender, new_kitty_index);
        self.events.push(Event::Breeded(sender, new_kitty_index));
        Ok(new_kitty_index)
    }

    /// Buys `kitty_id` at its listed price: the asset must be owned and
    /// listed, the offer must reach the listing, and the buyer pays
    /// exactly the listed price.  The payment precedes every state change,
    /// so a failed payment leaves everything as it was; on success the
    /// listing is cleared, ownership moves, and `Sold` is emitted.
    pub fn buy(&mut self, sender: u64, kitty_id: u32, price: u64) -> (r: Result<(), Error>)
        requires
            old(self).inv(),
        ensures
            final(self).inv(),
            (r == Err::<(), Error>(Error::InvalidKittyId)) <==> !old(self).owners_map().contains_key(
                kitty_id,
            ),
            (r == Err::<(), Error>(Error::NotForSale)) <==> (old(self).owners_map().contains_key(
                kitty_id,
            ) && !old(self).prices_map().contains_key(kitty_id)),
            (r == Err::<(), Error>(Error::PriceTooLow)) <==> (old(self).owners_map().contains_key(
                kitty_id,
            ) && old(self).prices_map().contains_key(kitty_id) && price < old(self).prices_map()[kitty_id]),
            (r == Err::<(), Error>(Error::InsufficientBalance)) <==> ({
                let owner = old(self).owners_map()[kitty_id];
                let kp = old(self).prices_map()[kitty_id];
                &&& old(self).owners_map().contains_key(kitty_id)
                &&& old(self).prices_map().contains_key(kitty_id)
                &&& price >= kp
                &&& sender != owner
                &&& kp != 0
                &&& old(self).balance_of(sender) < kp
            }),
            (r == Err::<(), Error>(Error::Overflow)) <==> ({
                let owner = old(self).owners_map()[kitty_id];
                let kp = old(self).prices_map()[kitty_id];
                &&& old(self).owners_map().contains_key(kitty_id)
                &&& old(self).prices_map().contains_key(kitty_id)
                &&& price >= kp
                &&& sender != owner
                &&& kp != 0
                &&& old(self).balance_of(sender) >= kp
                &&& old(self).balance_of(owner) + kp > u64::MAX
            }),
            r is Ok <==> ({
                let owner = old(self).owners_map()[kitty_id];
                let kp = old(self).prices_map()[kitty_id];
                &&& old(self).owners_map().contains_key(kitty_id)
                &&& old(self).prices_map().contains_key(kitty_id)
                &&& price >= kp
                &&& (sender == owner || kp == 0 || (old(self).balance_of(sender) >= kp && old(
                    self,
                ).balance_of(owner) + kp <= u64::MAX))
            }),
            r is Err ==> *final(self) == *old(self),
            r is Ok ==> ({
                let owner = old(self).owners_map()[kitty_id];
                let kp = old(self).prices_map()[kitty_id];
                &&& old(self).owners_map().contains_key(kitty_id)
                &&& old(self).prices_map().contains_key(kitty_id)
                &&& price >= kp
                &&& (sender != owner && kp != 0) ==> {
                    &&& final(self).balance_of(sender) == old(self).balance_of(sender) - kp
                    &&& final(self).balance_of(owner) == old(self).balance_of(owner) + kp
                    &&& forall|w: u64|
                        w != sender && w != owner ==> final(self).balance_of(w) == old(
                            self,
                        ).balance_of(w)
                }
                &&& (sender == owner || kp == 0) ==> (forall|w: u64|
                    final(self).balance_of(w) == old(self).balance_of(w))
                &&& final(self).prices_map() == old(self).prices_map().remove(kitty_id)
                &&& final(self).owned_map() == owned_after_move(
                    old(self).owned_map(),
                    owner,
                    sender,
                    kitty_id,
                )
                &&& final(self).owners_map() == old(self).owners_map().insert(kitty_id, sender)
                &&& final(self).lock_map() == old(self).lock_map()
                &&& final(self).kitties_map() == old(self).kitties_map()
                &&& final(self).count_spec() == old(self).count_spec()
                &&& final(self).parents_map() == old(self).parents_map()
                &&& forall|x: u32| final(self).children_of(x) == old(self).children_of(x)
                &&& forall|x: u32| final(self).partners_of(x) == old(self).partners_of(x)
                &&& final(self).events_seq() == old(self).events_seq().push(
                    Event::Sold(owner, sender, kitty_id, kp),
                )
            }),
    {
        let owner = match self.owners.get(&kitty_id) {
            Some(o) => *o,
            None => {
                return Err(Error::InvalidKittyId);
            },
        };
        let kitty_price = match self.prices.get(&kitty_id) {
            Some(p) => *p,
            None => {
                return Err(Error::NotForSale);
            },
        };
        if price < kitty_price {
            return Err(Error::PriceTooLow);
        }
        match self.ledger.transfer(sender, owner, kitty_price) {
            Ok(()) => {},
            Err(e) => {
                return Err(e);
            },
        }
        self.prices.remove(&kitty_id);
        proof {
            assert(kitty_id < old(self).count);
            assert(old(self).owned@[old(self).owners@[kitty_id]].contains(kitty_id));
            assert(self.inv()) by {
                assert forall|id: u32| #[trigger] self.prices@.contains_key(id) implies id
                    < self.count by {
                    assert(old(self).prices@.contains_key(id));
                }
            }
        }
        self.do_transfer(owner, sender, kitty_id);
        self.events.push(Event::Sold(owner, sender, kitty_id, kitty_price));
        Ok(())
    }

    /// The stored asset under `kitty_id`, if minted.
    pub fn kitties(&self, kitty_id: u32) -> (r: Option<Kitty>)
        ensures
            r == (if self.kitties_map().contains_key(kitty_id) {
                Some(self.kitties_map()[kitty_id])
            } else {
                None::<Kitty>
            }),
    {
        match self.kitties.get(&kitty_id) {
            Some(k) => Some(*k),
            None => None,
        }
    }

    /// The id the next mint will take; every id below it has been minted.
    pub fn kitties_count(&self) -> (r: u32)
        ensures
            r == self.count_spec(),
    {
        self.count
    }

    /// The current owner of `kitty_id`, if minted.
    pub fn kitty_owner(&self, kitty_id: u32) -> (r: Option<u64>)
        ensures
            r == (if self.owners_map().contains_key(kitty_id) {
                Some(self.owners_map()[kitty_id])
            } else {
                None::<u64>
            }),
    {
        match self.owners.get(&kitty_id) {
            Some(o) => Some(*o),
            None => None,
        }
    }

    /// The recorded parents of `kitty_id`, if it was bred.
    pub fn kitty_parents(&self, kitty_id: u32) -> (r: Option<(u32, u32)>)
        ensures
            r == (if self.parents_map().contains_key(kitty_id) {
                Some(self.parents_map()[kitty_id])
            } else {
                None::<(u32, u32)>
            }),
    {
        match self.parents.get(&kitty_id) {
            Some(p) => Some(*p),
            None => None,
        }
    }

    /// The recorded children of `kitty_id`, oldest first.
    pub fn kitty_children(&self, kitty_id: u32) -> (r: Vec<u32>)
        ensures
            r@ == self.children_of(kitty_id),
    {
        match self.children.get(&kitty_id) {
            Some(v) => Self::copy_ids(v),
            None => Vec::new(),
        }
    }

    /// The recorded breeding partners of `kitty_id`, oldest first,
    /// duplicates kept.
    pub fn kitty_partners(&self, kitty_id: u32) -> (r: Vec<u32>)
        ensures
            r@ == self.partners_of(kitty_id),
    {
        match self.partners.get(&kitty_id) {
            Some(v) => Self::copy_ids(v),
            None => Vec::new(),
        }
    }

    /// The listed price of `kitty_id`; `None` means not for sale.
    pub fn kitty_price(&self, kitty_id: u32) -> (r: Option<u64>)
        ensures
            r == (if self.prices_map().contains_key(kitty_id) {
                Some(self.prices_map()[kitty_id])
            } else {
                None::<u64>
            }),
    {
        match self.prices.get(&kitty_id) {
            Some(p) => Some(*p),
            None => None,
        }
    }

    /// The ids `who` owns, in insertion order, by forward enumeration of
    /// the ownership chain.
    pub fn owned_kitties(&self, who: u64) -> (r: Vec<u32>)
        requires
            self.inv(),
        ensures
            r@ == self.owned_of(who),
    {
        self.owned.enumerate(who)
    }

    /// Whether `who` currently owns `kitty_id`: the single membership
    /// point-read of the ownership chain.
    pub fn owns(&self, who: u64, kitty_id: u32) -> (r: bool)
        requires
            self.inv(),
        ensures
            r == self.owned_of(who).contains(kitty_id),
    {
        self.owned.contains(who, kitty_id)
    }

    /// The free balance of `who` in the currency model.
    pub fn free_balance(&self, who: u64) -> (r: u64)
        ensures
            r == self.balance_of(who),
    {
        self.ledger.free_balance(who)
    }

    /// The amount locked under the stake lock of `(who, kitty_index)`, if
    /// that lock exists.
    pub fn staked(&self, who: u64, kitty_index: u32) -> (r: Option<u64>)
        ensures
            r == (if self.lock_map().contains_key(stake_key(who, kitty_index)) {
                Some(self.lock_map()[stake_key(who, kitty_index)])
            } else {
                None::<u64>
            }),
    {
        let lock_id = Self::gen_lock_id(who, kitty_index);
        self.ledger.lock_amount(&lock_id, who)
    }

    /// The events emitted so far, oldest first.
    pub fn events(&self) -> (r: &Vec<Event>)
        ensures
            r@ == self.events_seq(),
    {
        &self.events
    }

    fn copy_ids(v: &Vec<u32>) -> (r: Vec<u32>)
        ensures
            r@ == v@,
    {
        let mut r: Vec<u32> = Vec::new();
        let mut i: usize = 0;
        while i < v.len()
            invariant
                i <= v.len(),
                r@ == v@.subrange(0, i as int),
            decreases v.len() - i,
    {
            r.push(v[i]);
            i = i + 1;
            proof {
                assert(r@ =~= v@.subrange(0, i as int));
            }
        }
        proof {
            assert(r@ =~= v@);
        }
        r
    }

    /// Exclusivity: an asset is in at most one account's list at any
    /// time.
    pub proof fn lemma_owner_exclusive(&self, a1: u64, a2: u64, id: u32)
        requires
            self.inv(),
            self.owned_of(a1).contains(id),
            self.owned_of(a2).contains(id),
        ensures
            a1 == a2,
    {
    }

    /// The direct owner lookup agrees with exactly the bucket containing
    /// the asset.
    pub proof fn lemma_owner_lookup_agrees(&self, who: u64, id: u32)
        requires
            self.inv(),
        ensures
            self.owned_of(who).contains(id) <==> (self.owners_map().contains_key(id)
                && self.owners_map()[id] == who),
    {
    }

    /// An id the counter has not yet reached is owned by nobody, so a
    /// minted id can never collide with an existing one.
    pub proof fn lemma_unminted_unowned(&self, who: u64, id: u32)
        requires
            self.inv(),
            id >= self.count_spec(),
        ensures
            !self.owned_of(who).contains(id),
    {
        if self.owned_of(who).contains(id) {
            assert(self.owners@.contains_key(id));
        }
    }

    /// A bucket never lists an asset twice: enumeration visits each owned
    /// asset exactly once.
    pub proof fn lemma_owned_no_duplicates(&self, who: u64)
        requires
            self.inv(),
        ensures
            self.owned_of(who).no_duplicates(),
    {
        self.owned.lemma_no_duplicates(who);
    }
}

} // verus!
