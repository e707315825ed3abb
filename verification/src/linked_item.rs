//! A persistent intrusive doubly-linked list over a point key-value store.
//!
//! Every bucket (an owner account) keeps an insertion-ordered set of `u32`
//! values as a chain of nodes.  A node for value `v` of bucket `b` lives
//! under the storage key `(b, Some(v))`; a sentinel under `(b, None)` holds
//! the head of the chain in `next` and, as a tail cache, the last element in
//! `prev`.  Append, removal and membership therefore touch a bounded number
//! of storage keys no matter how large the bucket is.

use std::collections::HashMap;

use vstd::prelude::*;

use crate::keys::{lemma_pair_key_injective, make_pair_key, pair_key};

verus! {

broadcast use lemma_pair_key_injective;

/// One stored node of a bucket's chain: the neighbours of the element it is
/// keyed under, or, for the sentinel, the first and last element.
#[derive(Clone, Copy, Debug, PartialEq, Eq)]
pub struct LinkedItem {
    pub prev: Option<u32>,
    pub next: Option<u32>,
}

/// Low half of the storage key of the node at `(bucket, it)`: the sentinel
/// takes `0`, the node of value `v` takes `v + 1`.
pub open spec fn item_code(it: Option<u32>) -> u64 {
    match it {
        None => 0,
        Some(v) => (v as u64 + 1) as u64,
    }
}

/// Storage key of the node at `(bucket, it)`.
pub open spec fn node_key(bucket: u64, it: Option<u32>) -> u128 {
    pair_key(bucket, item_code(it))
}

/// The store entry under key `k`, if present.
pub open spec fn key_state(m: Map<u128, LinkedItem>, k: u128) -> Option<LinkedItem> {
    if m.contains_key(k) {
        Some(m[k])
    } else {
        None
    }
}

/// Reading a node defaults to an empty node when the key is absent, so a
/// never-touched bucket behaves as an empty chain.
pub open spec fn state_at(m: Map<u128, LinkedItem>, bucket: u64, it: Option<u32>) -> LinkedItem {
    if m.contains_key(node_key(bucket, it)) {
        m[node_key(bucket, it)]
    } else {
        LinkedItem { prev: None, next: None }
    }
}

/// The sentinel of `bucket`.
pub open spec fn head_of(m: Map<u128, LinkedItem>, bucket: u64) -> LinkedItem {
    state_at(m, bucket, None)
}

/// The stored node of value `v` in `bucket`, if present.
pub open spec fn node_state(m: Map<u128, LinkedItem>, bucket: u64, v: u32) -> Option<LinkedItem> {
    key_state(m, node_key(bucket, Some(v)))
}

/// The chain of `bucket` in store `m` spells out exactly the sequence `s`:
/// a node exists precisely for the members of `s`, the sentinel points at
/// the first and last member, and every node points at its neighbours in
/// `s`.
pub open spec fn wf_bucket(m: Map<u128, LinkedItem>, bucket: u64, s: Seq<u32>) -> bool {
    &&& s.no_duplicates()
    &&& forall|v: u32| #![trigger node_state(m, bucket, v)] #![trigger s.contains(v)]
        node_state(m, bucket, v) is Some <==> s.contains(v)
    &&& head_of(m, bucket).next == (if s.len() > 0 {
        Some(s[0])
    } else {
        None::<u32>
    })
    &&& head_of(m, bucket).prev == (if s.len() > 0 {
        Some(s[s.len() - 1])
    } else {
        None::<u32>
    })
    &&& forall|i: int| 0 <= i < s.len() ==> node_state(m, bucket, #[trigger] s[i]) == Some(
        LinkedItem {
            prev: if i == 0 {
                None::<u32>
            } else {
                Some(s[i - 1])
            },
            next: if i == s.len() - 1 {
                None::<u32>
            } else {
                Some(s[i + 1])
            },
        },
    )
}

/// The set of keys an `append` to `bucket` may touch: the sentinel, the new
/// node, and the old tail — never more, whatever the bucket's size.
pub open spec fn append_touches(bucket: u64, value: u32, s: Seq<u32>, k: u128) -> bool {
    ||| k == node_key(bucket, None)
    ||| k == node_key(bucket, Some(value))
    ||| (s.len() > 0 && k == node_key(bucket, Some(s[s.len() - 1])))
}

/// The set of keys a `remove` from `bucket` may touch: the removed node and
/// its two neighbours (the sentinel standing in at either end) — never
/// more, whatever the bucket's size.
pub open spec fn remove_touches(bucket: u64, value: u32, s: Seq<u32>, k: u128) -> bool {
    let i = s.index_of(value);
    ||| k == node_key(bucket, Some(value))
    ||| k == node_key(bucket, if i == 0 { None } else { Some(s[i - 1]) })
    ||| k == node_key(bucket, if i == s.len() - 1 { None } else { Some(s[i + 1]) })
}

/// The map every bucket starts from: all chains empty.
pub open spec fn empty_buckets() -> Map<u64, Seq<u32>> {
    Map::new(|b: u64| true, |b: u64| Seq::empty())
}

/// The ownership-index engine: one insertion-ordered set of values per
/// bucket, held entirely as point entries of a key-value store.
pub struct LinkedList {
    store: HashMap<u128, LinkedItem>,
    buckets: Ghost<Map<u64, Seq<u32>>>,
}

impl View for LinkedList {
    type V = Map<u64, Seq<u32>>;

    closed spec fn view(&self) -> Map<u64, Seq<u32>> {
        self.buckets@
    }
}

impl LinkedList {
    /// The raw point store, for stating which keys an operation touches.
    pub closed spec fn storage(&self) -> Map<u128, LinkedItem> {
        self.store@
    }

    /// Every bucket's chain in the store spells out that bucket's sequence.
    pub closed spec fn wf(&self) -> bool {
        &&& forall|b: u64| self.buckets@.dom().contains(b)
        &&& forall|b: u64| wf_bucket(self.store@, b, #[trigger] self.buckets@[b])
    }

    pub fn new() -> (r: LinkedList)
        ensures
            r.wf(),
            r@ == empty_buckets(),
            r.storage() == Map::<u128, LinkedItem>::empty(),
    {
        let r = LinkedList { store: HashMap::new(), buckets: Ghost(empty_buckets()) };
        proof {
            assert forall|b: u64| wf_bucket(r.store@, b, #[trigger] r.buckets@[b]) by {
                assert(r.buckets@[b] =~= Seq::<u32>::empty());
            }
        }
        r
    }

    /// A bucket's chain never lists a value twice.
    pub proof fn lemma_no_duplicates(&self, bucket: u64)
        requires
            self.wf(),
        ensures
            self@[bucket].no_duplicates(),
    {
    }

    fn node_key_exec(bucket: u64, it: Option<u32>) -> (k: u128)
        ensures
            k == node_key(bucket, it),
    {
        let code: u64 = match it {
            None => 0,
            Some(v) => v as u64 + 1,
        };
        make_pair_key(bucket, code)
    }

    fn read_at(&self, bucket: u64, it: Option<u32>) -> (r: LinkedItem)
        ensures
            r == state_at(self.store@, bucket, it),
    {
        let k = Self::node_key_exec(bucket, it);
        match self.store.get(&k) {
            Some(n) => *n,
            None => LinkedItem { prev: None, next: None },
        }
    }

    fn write_at(&mut self, bucket: u64, it: Option<u32>, item: LinkedItem)
        ensures
            final(self).store@ == old(self).store@.insert(node_key(bucket, it), item),
            final(self).buckets == old(self).buckets,
    {
        let k = Self::node_key_exec(bucket, it);
        self.store.insert(k, item);
    }

    fn delete_at(&mut self, bucket: u64, value: u32)
        ensures
            final(self).store@ == old(self).store@.remove(node_key(bucket, Some(value))),
            final(self).buckets == old(self).buckets,
    {
        let k = Self::node_key_exec(bucket, Some(value));
        self.store.remove(&k);
    }

    /// Membership: one point read, whatever the bucket holds.
    pub fn contains(&self, bucket: u64, value: u32) -> (r: bool)
        requires
            self.wf(),
        ensures
            r == self@[bucket].contains(value),
    {
        let k = Self::node_key_exec(bucket, Some(value));
        self.store.contains_key(&k)
    }

    /// Appends `value` at the tail of `bucket`'s chain.  The caller must
    /// know the value absent; the registry only appends freshly minted or
    /// freshly acquired ids.  Touches at most three storage keys.
    pub fn append(&mut self, bucket: u64, value: u32)
        requires
            old(self).wf(),
            !old(self)@[bucket].contains(value),
        ensures
            final(self).wf(),
            final(self)@ == old(self)@.insert(bucket, old(self)@[bucket].push(value)),
            forall|k: u128|
                !append_touches(bucket, value, old(self)@[bucket], k) ==> key_state(
                    final(self).storage(),
                    k,
                ) == key_state(old(self).storage(), k),
    {
        let ghost s = self.buckets@[bucket];
        let ghost m0 = self.store@;
        let head = self.read_at(bucket, None);
        match head.prev {
            None => {
                proof {
                    assert(wf_bucket(m0, bucket, s));
                    assert(s.len() == 0);
                }
                self.write_at(bucket, Some(value), LinkedItem { prev: None, next: None });
                self.write_at(bucket, None, LinkedItem { prev: Some(value), next: Some(value) });
            },
            Some(tail) => {
                let tail_node = self.read_at(bucket, Some(tail));
                proof {
                    assert(wf_bucket(m0, bucket, s));
                    assert(s.len() > 0);
                    assert(tail == s[s.len() - 1]);
                    assert(s.contains(s[s.len() - 1]));
                    assert(node_state(m0, bucket, s[s.len() - 1]) is Some);
                    assert(tail_node.prev == (if s.len() == 1 {
                        None::<u32>
                    } else {
                        Some(s[s.len() - 2])
                    }));
                }
                self.write_at(
                    bucket,
                    Some(tail),
                    LinkedItem { prev: tail_node.prev, next: Some(value) },
                );
                self.write_at(bucket, Some(value), LinkedItem { prev: Some(tail), next: None });
                self.write_at(bucket, None, LinkedItem { prev: Some(value), next: head.next });
            },
        }
        self.buckets = Ghost(self.buckets@.insert(bucket, s.push(value)));
        proof {
            let s2 = s.push(value);
            assert(self.buckets@[bucket] == s2);
            assert forall|b: u64| wf_bucket(self.store@, b, #[trigger] self.buckets@[b]) by {
                if b == bucket {
                    lemma_wf_bucket_after_append(m0, self.store@, bucket, s, value);
                } else {
                    assert(wf_bucket(m0, b, old(self).buckets@[b]));
                    assert(head_of(self.store@, b) == head_of(m0, b));
                    assert(forall|v: u32|
                        node_state(self.store@, b, v) == #[trigger] node_state(m0, b, v));
                    lemma_wf_bucket_congruence(m0, self.store@, b, old(self).buckets@[b]);
                    assert(self.buckets@[b] == old(self).buckets@[b]);
                }
            }
            assert(self@ =~= old(self)@.insert(bucket, old(self)@[bucket].push(value)));
        }
    }

    /// Splices `value` out of `bucket`'s chain.  The caller must know the
    /// value present.  Touches at most three storage keys.
    pub fn remove(&mut self, bucket: u64, value: u32)
        requires
            old(self).wf(),
            old(self)@[bucket].contains(value),
        ensures
            final(self).wf(),
            final(self)@ == old(self)@.insert(
                bucket,
                old(self)@[bucket].remove(old(self)@[bucket].index_of(value)),
            ),
            forall|k: u128|
                !remove_touches(bucket, value, old(self)@[bucket], k) ==> key_state(
                    final(self).storage(),
                    k,
                ) == key_state(old(self).storage(), k),
    {
        let ghost s = self.buckets@[bucket];
        let ghost m0 = self.store@;
        let ghost i = s.index_of(value);
        proof {
            assert(wf_bucket(m0, bucket, s));
            assert(s[i] == value && 0 <= i < s.len());
        }
        let node = self.read_at(bucket, Some(value));
        proof {
            assert(node_state(m0, bucket, s[i]) is Some);
            assert(node.prev == (if i == 0 {
                None::<u32>
            } else {
                Some(s[i - 1])
            }));
            assert(node.next == (if i == s.len() - 1 {
                None::<u32>
            } else {
                Some(s[i + 1])
            }));
        }
        let prev_item = self.read_at(bucket, node.prev);
        self.write_at(bucket, node.prev, LinkedItem { prev: prev_item.prev, next: node.next });
        let next_item = self.read_at(bucket, node.next);
        self.write_at(bucket, node.next, LinkedItem { prev: node.prev, next: next_item.next });
        self.delete_at(bucket, value);
        self.buckets = Ghost(self.buckets@.insert(bucket, s.remove(i)));
        proof {
            let s2 = s.remove(i);
            assert forall|b: u64| wf_bucket(self.store@, b, #[trigger] self.buckets@[b]) by {
                if b == bucket {
                    lemma_wf_bucket_after_remove(m0, self.store@, bucket, s, value);
                } else {
                    assert(wf_bucket(m0, b, old(self).buckets@[b]));
                    assert(head_of(self.store@, b) == head_of(m0, b));
                    assert(forall|v: u32|
                        node_state(self.store@, b, v) == #[trigger] node_state(m0, b, v));
                    lemma_wf_bucket_congruence(m0, self.store@, b, old(self).buckets@[b]);
                    assert(self.buckets@[b] == old(self).buckets@[b]);
                }
            }
            assert(self@ =~= old(self)@.insert(bucket, s.remove(s.index_of(value))));
        }
    }

    /// Forward enumeration: follows `next` from the sentinel and returns the
    /// bucket's values in insertion order.
    pub fn enumerate(&self, bucket: u64) -> (r: Vec<u32>)
        requires
            self.wf(),
        ensures
            r@ == self@[bucket],
    {
        let ghost s = self.buckets@[bucket];
        proof {
            assert(wf_bucket(self.store@, bucket, s));
        }
        let mut result: Vec<u32> = Vec::new();
        let mut cursor: Option<u32> = self.read_at(bucket, None).next;
        while cursor.is_some()
            invariant
                self.wf(),
                s == self.buckets@[bucket],
                wf_bucket(self.store@, bucket, s),
                result@.len() <= s.len(),
                result@ == s.subrange(0, result@.len() as int),
                cursor == (if result@.len() < s.len() {
                    Some(s[result@.len() as int])
                } else {
                    None::<u32>
                }),
            decreases s.len() - result@.len(),
        {
            let v = cursor.unwrap();
            proof {
                let j = result@.len() as int;
                assert(v == s[j]);
                assert(s.contains(s[j]));
            }
            result.push(v);
            cursor = self.read_at(bucket, Some(v)).next;
            proof {
                assert(result@ =~= s.subrange(0, result@.len() as int));
            }
        }
        proof {
            assert(result@ =~= s);
        }
        result
    }
}

/// What removing a value does to a duplicate-free sequence: the value is
/// gone, every other value stays, and the length drops by one.
pub proof fn lemma_remove_at_props(s: Seq<u32>, v: u32)
    requires
        s.no_duplicates(),
        s.contains(v),
    ensures
        ({
            let s2 = s.remove(s.index_of(v));
            &&& s2.no_duplicates()
            &&& !s2.contains(v)
            &&& s2.len() == s.len() - 1
            &&& forall|w: u32| w != v ==> (s2.contains(w) <==> s.contains(w))
        }),
{
    let i = s.index_of(v);
    assert(0 <= i < s.len() && s[i] == v);
    let s2 = s.remove(i);
    assert forall|p: int, q: int|
        0 <= p < s2.len() && 0 <= q < s2.len() && p != q implies s2[p] != s2[q] by {
        let p0 = if p < i {
            p
        } else {
            p + 1
        };
        let q0 = if q < i {
            q
        } else {
            q + 1
        };
        assert(s2[p] == s[p0] && s2[q] == s[q0]);
        assert(s[p0] != s[q0]);
    }
    assert forall|j: int| 0 <= j < s2.len() implies s2[j] != v by {
        let j0 = if j < i {
            j
        } else {
            j + 1
        };
        assert(s2[j] == s[j0]);
        assert(s[j0] != s[i]);
    }
    assert forall|w: u32| w != v implies (s2.contains(w) <==> s.contains(w)) by {
        if s2.contains(w) {
            let j = choose|j: int| 0 <= j < s2.len() && s2[j] == w;
            let j0 = if j < i {
                j
            } else {
                j + 1
            };
            assert(s[j0] == w);
            assert(s.contains(w));
        }
        if s.contains(w) {
            let j = choose|j: int| 0 <= j < s.len() && s[j] == w;
            assert(j != i);
            let j2 = if j < i {
                j
            } else {
                j - 1
            };
            assert(s2[j2] == w);
            assert(s2.contains(w));
        }
    }
}

/// What appending a value does to membership: exactly the old values and
/// the new one.
pub proof fn lemma_push_contains(s: Seq<u32>, v: u32, w: u32)
    ensures
        s.push(v).contains(w) <==> (s.contains(w) || w == v),
{
    let s2 = s.push(v);
    if s.contains(w) {
        let j = choose|j: int| 0 <= j < s.len() && s[j] == w;
        assert(s2[j] == w);
        assert(s2.contains(w));
    }
    if w == v {
        assert(s2[s.len() as int] == v);
        assert(s2.contains(w));
    }
    if s2.contains(w) {
        let j = choose|j: int| 0 <= j < s2.len() && s2[j] == w;
        if j < s.len() {
            assert(s[j] == w);
            assert(s.contains(w));
        }
    }
}

/// Pointwise-equal chains are well-formed for the same sequence.
proof fn lemma_wf_bucket_congruence(m1: Map<u128, LinkedItem>, m2: Map<u128, LinkedItem>, b: u64, s: Seq<u32>)
    requires
        wf_bucket(m1, b, s),
        head_of(m2, b) == head_of(m1, b),
        forall|v: u32| node_state(m2, b, v) == #[trigger] node_state(m1, b, v),
    ensures
        wf_bucket(m2, b, s),
{
    assert forall|i: int| 0 <= i < s.len() implies node_state(m2, b, #[trigger] s[i]) == Some(
        LinkedItem {
            prev: if i == 0 {
                None::<u32>
            } else {
                Some(s[i - 1])
            },
            next: if i == s.len() - 1 {
                None::<u32>
            } else {
                Some(s[i + 1])
            },
        },
    ) by {
        assert(node_state(m1, b, s[i]) == node_state(m2, b, s[i]));
    }
}

/// After the three point writes of an append, the bucket's chain spells out
/// the old sequence with the new value at its tail.
proof fn lemma_wf_bucket_after_append(
    m0: Map<u128, LinkedItem>,
    m2: Map<u128, LinkedItem>,
    bucket: u64,
    s: Seq<u32>,
    value: u32,
)
    requires
        wf_bucket(m0, bucket, s),
        !s.contains(value),
        s.len() == 0 ==> m2 == m0.insert(
            node_key(bucket, Some(value)),
            LinkedItem { prev: None, next: None },
        ).insert(node_key(bucket, None), LinkedItem { prev: Some(value), next: Some(value) }),
        s.len() > 0 ==> m2 == m0.insert(
            node_key(bucket, Some(s[s.len() - 1])),
            LinkedItem {
                prev: if s.len() == 1 {
                    None::<u32>
                } else {
                    Some(s[s.len() - 2])
                },
                next: Some(value),
            },
        ).insert(node_key(bucket, Some(value)), LinkedItem { prev: Some(s[s.len() - 1]), next: None })
            .insert(node_key(bucket, None), LinkedItem { prev: Some(value), next: head_of(m0, bucket).next }),
    ensures
        wf_bucket(m2, bucket, s.push(value)),
{
    let s2 = s.push(value);
    assert(s2[s2.len() - 1] == value);
    assert forall|i: int| 0 <= i < s.len() implies s2[i] == s[i] by {}
    assert(s2.no_duplicates()) by {
        assert forall|i: int, j: int| 0 <= i < s2.len() && 0 <= j < s2.len() && i != j implies s2[i]
            != s2[j] by {
            if i < s.len() && j < s.len() {
                assert(s[i] != s[j]);
            } else if i < s.len() {
                assert(s.contains(s[i]));
            } else if j < s.len() {
                assert(s.contains(s[j]));
            }
        }
    }
    if s.len() == 0 {
        assert forall|v: u32| #![trigger node_state(m2, bucket, v)] #![trigger s2.contains(v)]
            node_state(m2, bucket, v) is Some <==> s2.contains(v) by {
            if v == value {
                assert(s2[0] == value);
                assert(s2.contains(value));
            } else {
                assert(node_key(bucket, Some(v)) != node_key(bucket, Some(value)));
                assert(node_key(bucket, Some(v)) != node_key(bucket, None));
                assert(node_state(m2, bucket, v) == node_state(m0, bucket, v));
                assert(s2.contains(v) ==> s2[s2.index_of(v)] == v);
            }
        }
    } else {
        let tail = s[s.len() - 1];
        assert(s.contains(tail));
        assert(tail != value);
        assert forall|v: u32| #![trigger node_state(m2, bucket, v)] #![trigger s2.contains(v)]
            node_state(m2, bucket, v) is Some <==> s2.contains(v) by {
            if v == value {
                assert(s2[s2.len() - 1] == value);
                assert(s2.contains(value));
            } else if v == tail {
                assert(s2[s.len() - 1] == tail);
                assert(s2.contains(tail));
            } else {
                assert(node_key(bucket, Some(v)) != node_key(bucket, Some(value)));
                assert(node_key(bucket, Some(v)) != node_key(bucket, Some(tail)));
                assert(node_key(bucket, Some(v)) != node_key(bucket, None));
                assert(node_state(m2, bucket, v) == node_state(m0, bucket, v));
                if s2.contains(v) {
                    let j = choose|j: int| 0 <= j < s2.len() && s2[j] == v;
                    assert(j < s.len());
                    assert(s[j] == v);
                    assert(s.contains(v));
                }
                if s.contains(v) {
                    let j = choose|j: int| 0 <= j < s.len() && s[j] == v;
                    assert(s2[j] == v);
                    assert(s2.contains(v));
                }
            }
        }
        assert forall|i: int| 0 <= i < s2.len() implies node_state(m2, bucket, #[trigger] s2[i])
            == Some(
            LinkedItem {
                prev: if i == 0 {
                    None::<u32>
                } else {
                    Some(s2[i - 1])
                },
                next: if i == s2.len() - 1 {
                    None::<u32>
                } else {
                    Some(s2[i + 1])
                },
            },
        ) by {
            if i < s.len() - 1 {
                assert(s2[i] == s[i]);
                assert(s2[i] != value);
                assert(s2[i] != tail);
                assert(node_key(bucket, Some(s[i])) != node_key(bucket, Some(value)));
                assert(node_key(bucket, Some(s[i])) != node_key(bucket, Some(tail)));
                assert(node_key(bucket, Some(s[i])) != node_key(bucket, None));
                assert(node_state(m2, bucket, s[i]) == node_state(m0, bucket, s[i]));
            } else if i == s.len() - 1 {
                assert(s2[i] == tail);
            } else {
                assert(i == s2.len() - 1);
                assert(s2[i] == value);
            }
        }
    }
}

/// After the splice writes of a remove, the bucket's chain spells out the
/// old sequence without the removed value.
#[verifier::rlimit(100)]
proof fn lemma_wf_bucket_after_remove(
    m0: Map<u128, LinkedItem>,
    m2: Map<u128, LinkedItem>,
    bucket: u64,
    s: Seq<u32>,
    value: u32,
)
    requires
        wf_bucket(m0, bucket, s),
        s.contains(value),
        ({
            let i = s.index_of(value);
            let prev_it: Option<u32> = if i == 0 {
                None
            } else {
                Some(s[i - 1])
            };
            let next_it: Option<u32> = if i == s.len() - 1 {
                None
            } else {
                Some(s[i + 1])
            };
            let m1 = m0.insert(
                node_key(bucket, prev_it),
                LinkedItem { prev: state_at(m0, bucket, prev_it).prev, next: next_it },
            );
            m2 == m1.insert(
                node_key(bucket, next_it),
                LinkedItem { prev: prev_it, next: state_at(m1, bucket, next_it).next },
            ).remove(node_key(bucket, Some(value)))
        }),
    ensures
        wf_bucket(m2, bucket, s.remove(s.index_of(value))),
{
    let i = s.index_of(value);
    assert(0 <= i < s.len() && s[i] == value);
    let s2 = s.remove(i);
    assert(s2.len() == s.len() - 1);
    assert forall|j: int| 0 <= j < i implies s2[j] == s[j] by {}
    assert forall|j: int| i <= j < s2.len() implies s2[j] == s[j + 1] by {}
    assert(s2.no_duplicates()) by {
        assert forall|p: int, q: int| 0 <= p < s2.len() && 0 <= q < s2.len() && p != q implies s2[p]
            != s2[q] by {
            let p0 = if p < i { p } else { p + 1 };
            let q0 = if q < i { q } else { q + 1 };
            assert(s2[p] == s[p0] && s2[q] == s[q0]);
            assert(s[p0] != s[q0]);
        }
    }
    assert forall|w: u32| s2.contains(w) <==> (s.contains(w) && w != value) by {
        if s2.contains(w) {
            let j = choose|j: int| 0 <= j < s2.len() && s2[j] == w;
            let j0 = if j < i { j } else { j + 1 };
            assert(s[j0] == w);
            assert(s.contains(w));
            assert(s[j0] != s[i] || j0 == i);
        }
        if s.contains(w) && w != value {
            let j = choose|j: int| 0 <= j < s.len() && s[j] == w;
            assert(j != i);
            let j2 = if j < i { j } else { j - 1 };
            assert(s2[j2] == w);
            assert(s2.contains(w));
        }
    }
    let prev_it: Option<u32> = if i == 0 {
        None
    } else {
        Some(s[i - 1])
    };
    let next_it: Option<u32> = if i == s.len() - 1 {
        None
    } else {
        Some(s[i + 1])
    };
    assert forall|w: u32| #![trigger node_state(m2, bucket, w)] #![trigger s2.contains(w)]
        node_state(m2, bucket, w) is Some <==> s2.contains(w) by {
        if w == value {
            assert(node_state(m2, bucket, w) is None);
        } else {
            if node_state(m2, bucket, w) is Some {
                if prev_it != Some(w) && next_it != Some(w) {
                    assert(node_state(m0, bucket, w) == node_state(m2, bucket, w));
                    assert(s.contains(w));
                } else {
                    if prev_it == Some(w) {
                        assert(s.contains(s[i - 1]));
                    }
                    if next_it == Some(w) {
                        assert(s.contains(s[i + 1]));
                    }
                }
                assert(s2.contains(w));
            }
            if s2.contains(w) {
                assert(s.contains(w));
                if prev_it != Some(w) && next_it != Some(w) {
                    assert(node_state(m0, bucket, w) == node_state(m2, bucket, w));
                }
                assert(node_state(m2, bucket, w) is Some);
            }
        }
    }
    assert forall|j: int| 0 <= j < s2.len() implies node_state(m2, bucket, #[trigger] s2[j]) == Some(
        LinkedItem {
            prev: if j == 0 {
                None::<u32>
            } else {
                Some(s2[j - 1])
            },
            next: if j == s2.len() - 1 {
                None::<u32>
            } else {
                Some(s2[j + 1])
            },
        },
    ) by {
        let j0 = if j < i { j } else { j + 1 };
        assert(s2[j] == s[j0]);
        assert(s[j0] != value);
        if j0 == i - 1 {
            assert(prev_it == Some(s[j0]));
        } else if j0 == i + 1 {
            assert(next_it == Some(s[j0]));
        } else {
            assert(node_key(bucket, Some(s[j0])) != node_key(bucket, Some(value)));
            assert(node_key(bucket, Some(s[j0])) != node_key(bucket, prev_it));
            assert(node_key(bucket, Some(s[j0])) != node_key(bucket, next_it));
            assert(node_state(m2, bucket, s[j0]) == node_state(m0, bucket, s[j0]));
        }
    }
}

} // verus!
