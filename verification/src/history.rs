//! The event history: an immutable record of accepted deposit, withdrawal and
//! dispute events, indexed by (client, tx, kind). Later disputes, resolves and
//! chargebacks consult it to recover the amount of the event they refer to.
//!
//! Internally the map is keyed by an integer encoding of the key triple; the
//! encoding is injective, so the history presents itself as a map from
//! [`HistoryKey`] to [`Event`].

use vstd::prelude::*;

use crate::types::{Event, HistoryKey, TransactionType};
use std::collections::HashMap;

verus! {

/// The integer tag of a kind inside an encoded history key.
pub open spec fn kind_code(t: TransactionType) -> int {
    match t {
        TransactionType::Deposit => 0,
        TransactionType::Withdrawal => 1,
        TransactionType::Dispute => 2,
        TransactionType::Resolve => 3,
        TransactionType::Chargeback => 4,
    }
}

/// The injective integer encoding of a history key: the client id in the high
/// bits, the transaction id in the middle, the kind tag in the low three bits.
pub open spec fn spec_encode(k: HistoryKey) -> int {
    (k.client as int) * 0x8_0000_0000 + (k.tx as int) * 8 + kind_code(k.tx_type)
}

pub proof fn lemma_encode_bounds(k: HistoryKey)
    ensures
        0 <= spec_encode(k) < 0x10_0000_0000_0000,
{
}

pub proof fn lemma_encode_injective(a: HistoryKey, b: HistoryKey)
    ensures
        spec_encode(a) == spec_encode(b) ==> a == b,
{
    if spec_encode(a) == spec_encode(b) {
        assert(a.client == b.client);
        assert(a.tx == b.tx);
        assert(kind_code(a.tx_type) == kind_code(b.tx_type));
        assert(a.tx_type == b.tx_type);
    }
}

impl HistoryKey {
    /// The executable form of [`spec_encode`].
    pub fn encode(&self) -> (r: u64)
        ensures
            r == spec_encode(*self),
    {
        let code: u64 = match self.tx_type {
            TransactionType::Deposit => 0,
            TransactionType::Withdrawal => 1,
            TransactionType::Dispute => 2,
            TransactionType::Resolve => 3,
            TransactionType::Chargeback => 4,
        };
        (self.client as u64) * 0x8_0000_0000 + (self.tx as u64) * 8 + code
    }
}

/// The history component. Entries are created once, on a successful deposit,
/// a successful withdrawal, or an accepted dispute, and are never deleted or
/// updated afterwards: recording under a key that is already present keeps
/// the entry that was there first.
pub struct History {
    map: HashMap<u64, Event>,
}

impl View for History {
    type V = Map<HistoryKey, Event>;

    closed spec fn view(&self) -> Map<HistoryKey, Event> {
        Map::new(
            |k: HistoryKey| self.map@.contains_key(spec_encode(k) as u64),
            |k: HistoryKey| self.map@[spec_encode(k) as u64],
        )
    }
}

impl History {
    /// An empty history.
    pub fn new() -> (r: History)
        ensures
            r@ == Map::<HistoryKey, Event>::empty(),
    {
        let r = History { map: HashMap::new() };
        proof {
            assert(r@ =~= Map::<HistoryKey, Event>::empty());
        }
        r
    }

    /// Whether an entry is on record under `key`.
    pub fn has(&self, key: HistoryKey) -> (r: bool)
        ensures
            r == self@.contains_key(key),
    {
        self.map.contains_key(&key.encode())
    }

    /// The entry on record under `key`, if any.
    pub fn lookup(&self, key: HistoryKey) -> (r: Option<Event>)
        ensures
            r == if self@.contains_key(key) {
                Some(self@[key])
            } else {
                None::<Event>
            },
    {
        match self.map.get(&key.encode()) {
            Some(ev) => Some(*ev),
            None => None,
        }
    }

    /// Records `ev` under `key`. An entry is immutable once inserted: if the
    /// key is already on record, the history is left as it is and the first
    /// writer stays.
    pub fn record(&mut self, key: HistoryKey, ev: Event)
        ensures
            final(self)@ == if old(self)@.contains_key(key) {
                old(self)@
            } else {
                old(self)@.insert(key, ev)
            },
    {
        let k = key.encode();
        if !self.map.contains_key(&k) {
            self.map.insert(k, ev);
            proof {
                assert forall|k2: HistoryKey| k2 != key implies #[trigger] spec_encode(k2) as u64
                    != spec_encode(key) as u64 by {
                    lemma_encode_bounds(k2);
                    lemma_encode_bounds(key);
                    lemma_encode_injective(k2, key);
                }
                assert(self@ =~= old(self)@.insert(key, ev));
            }
        } else {
            proof {
                assert(self@ =~= old(self)@);
            }
        }
    }
}

} // verus!
