//! The order store: at most one active sell order per asset, and one
//! collection of standing bids per asset. Lookups are always by exact key; no
//! enumeration is offered.

use crate::assoc::assoc_map;
use crate::assoc::distinct_keys;
use crate::assoc::has_key;
use crate::assoc::lemma_assoc_map_contains;
use crate::assoc::lemma_assoc_map_index;
use crate::assoc::lemma_assoc_map_push;
use crate::assoc::lemma_assoc_map_remove;
use crate::assoc::lemma_assoc_map_update;
use crate::assoc::lemma_seq_sum_push;
use crate::assoc::lemma_seq_sum_update;
use crate::assoc::seq_sum;
use crate::orders::AssetKey;
use crate::orders::Bids;
use crate::orders::BuyOrder;
use crate::orders::SellOrder;
use crate::Address;
use vstd::prelude::*;

verus! {

/// The sell-order slots, one per asset at most.
pub struct SellOrders {
    pub entries: Vec<(AssetKey, SellOrder)>,
}

impl SellOrders {
    pub open spec fn as_map(self) -> Map<AssetKey, SellOrder> {
        assoc_map(self.entries@)
    }

    pub open spec fn wf(self) -> bool {
        distinct_keys(self.entries@)
    }

    pub fn init() -> (r: SellOrders)
        ensures
            r.wf(),
            r.as_map() == Map::<AssetKey, SellOrder>::empty(),
    {
        SellOrders { entries: Vec::new() }
    }

    fn find(&self, key: AssetKey) -> (r: Option<usize>)
        ensures
            match r {
                Some(i) => i < self.entries@.len() && self.entries@[i as int].0 == key,
                None => !has_key(self.entries@, key),
            },
    {
        let mut i: usize = 0;
        while i < self.entries.len()
            invariant
                i <= self.entries@.len(),
                forall|j: int| 0 <= j < i ==> (#[trigger] self.entries@[j]).0 != key,
            decreases self.entries@.len() - i,
        {
            if self.entries[i].0 == key {
                return Some(i);
            }
            i += 1;
        }
        proof {
            if has_key(self.entries@, key) {
                let j = choose|j: int|
                    0 <= j < self.entries@.len() && (#[trigger] self.entries@[j]).0 == key;
            }
        }
        None
    }

    /// The order listed under this key, if one is.
    pub fn get(&self, collection: u64, token_id: u64) -> (r: Option<SellOrder>)
        requires
            self.wf(),
        ensures
            match r {
                Some(order) => self.as_map().contains_key(AssetKey { collection, token_id })
                    && self.as_map()[AssetKey { collection, token_id }] == order,
                None => !self.as_map().contains_key(AssetKey { collection, token_id }),
            },
    {
        let key = AssetKey { collection, token_id };
        proof {
            lemma_assoc_map_contains(self.entries@, key);
        }
        match self.find(key) {
            Some(i) => {
                proof {
                    lemma_assoc_map_index(self.entries@, i as int);
                }
                Some(self.entries[i].1)
            },
            None => None,
        }
    }

    /// Write or overwrite the single slot under this key.
    pub fn set(&mut self, collection: u64, token_id: u64, order: SellOrder)
        requires
            old(self).wf(),
        ensures
            final(self).wf(),
            final(self).as_map() == old(self).as_map().insert(
                AssetKey { collection, token_id },
                order,
            ),
    {
        let key = AssetKey { collection, token_id };
        match self.find(key) {
            Some(i) => {
                proof {
                    lemma_assoc_map_update(self.entries@, i as int, order);
                }
                self.entries.set(i, (key, order));
            },
            None => {
                proof {
                    lemma_assoc_map_push(self.entries@, key, order);
                }
                self.entries.push((key, order));
            },
        }
    }

    /// Clear the slot under this key, if it is filled.
    pub fn remove(&mut self, collection: u64, token_id: u64)
        requires
            old(self).wf(),
        ensures
            final(self).wf(),
            final(self).as_map() == old(self).as_map().remove(AssetKey { collection, token_id }),
    {
        let key = AssetKey { collection, token_id };
        match self.find(key) {
            Some(i) => {
                proof {
                    lemma_assoc_map_remove(self.entries@, i as int);
                }
                self.entries.remove(i);
            },
            None => {
                proof {
                    lemma_assoc_map_contains(self.entries@, key);
                    assert(self.as_map().remove(key) =~= self.as_map());
                }
            },
        }
    }
}


/// The weight of one per-asset bid collection, as a function over entries.
pub open spec fn bids_entry_weight() -> spec_fn((AssetKey, Bids)) -> nat {
    |e: (AssetKey, Bids)| e.1.native_total()
}

/// The bid collections, one per asset; an absent key reads as no bids.
pub struct BuyOrders {
    pub entries: Vec<(AssetKey, Bids)>,
}

impl BuyOrders {
    pub open spec fn as_map(self) -> Map<AssetKey, Bids> {
        assoc_map(self.entries@)
    }

    /// The bids standing on this asset; empty where no collection is stored.
    pub open spec fn bids_at(self, key: AssetKey) -> Map<Address, BuyOrder> {
        if self.as_map().contains_key(key) {
            self.as_map()[key].as_map()
        } else {
            Map::empty()
        }
    }

    pub open spec fn wf(self) -> bool {
        &&& distinct_keys(self.entries@)
        &&& forall|i: int| 0 <= i < self.entries@.len() ==> (#[trigger] self.entries@[i]).1.wf()
    }


    /// The native units every standing bid holds in the purse together.
    pub open spec fn native_total(self) -> nat {
        seq_sum(self.entries@, bids_entry_weight())
    }

    /// This asset's bid collection's share of the native total.
    pub open spec fn native_contribution(self, key: AssetKey) -> nat {
        if self.as_map().contains_key(key) {
            self.as_map()[key].native_total()
        } else {
            0
        }
    }

    pub fn init() -> (r: BuyOrders)
        ensures
            r.wf(),
            r.as_map() == Map::<AssetKey, Bids>::empty(),
            r.native_total() == 0,
    {
        BuyOrders { entries: Vec::new() }
    }

    fn find(&self, key: AssetKey) -> (r: Option<usize>)
        ensures
            match r {
                Some(i) => i < self.entries@.len() && self.entries@[i as int].0 == key,
                None => !has_key(self.entries@, key),
            },
    {
        let mut i: usize = 0;
        while i < self.entries.len()
            invariant
                i <= self.entries@.len(),
                forall|j: int| 0 <= j < i ==> (#[trigger] self.entries@[j]).0 != key,
            decreases self.entries@.len() - i,
        {
            if self.entries[i].0 == key {
                return Some(i);
            }
            i += 1;
        }
        proof {
            if has_key(self.entries@, key) {
                let j = choose|j: int|
                    0 <= j < self.entries@.len() && (#[trigger] self.entries@[j]).0 == key;
            }
        }
        None
    }

    /// An owned copy of the bids standing on this asset; empty where none are
    /// stored. Never fails.
    pub fn get(&self, collection: u64, token_id: u64) -> (r: Bids)
        requires
            self.wf(),
        ensures
            r.wf(),
            r.as_map() == self.bids_at(AssetKey { collection, token_id }),
            r.native_total() == self.native_contribution(AssetKey { collection, token_id }),
    {
        let key = AssetKey { collection, token_id };
        proof {
            lemma_assoc_map_contains(self.entries@, key);
        }
        match self.find(key) {
            Some(i) => {
                proof {
                    lemma_assoc_map_index(self.entries@, i as int);
                }
                self.entries[i].1.duplicate()
            },
            None => Bids::new(),
        }
    }

    /// Replace the whole bid collection stored under this key.
    pub fn set(&mut self, collection: u64, token_id: u64, bids: Bids)
        requires
            old(self).wf(),
            bids.wf(),
        ensures
            final(self).wf(),
            final(self).as_map() == old(self).as_map().insert(
                AssetKey { collection, token_id },
                bids,
            ),
            final(self).bids_at(AssetKey { collection, token_id }) == bids.as_map(),
            forall|other: AssetKey|
                other != (AssetKey { collection, token_id }) ==> #[trigger] final(self).bids_at(
                    other,
                ) == old(self).bids_at(other),
            final(self).native_total() + old(self).native_contribution(
                AssetKey { collection, token_id },
            ) == old(self).native_total() + bids.native_total(),
    {
        let key = AssetKey { collection, token_id };
        let ghost bids_view = bids;
        match self.find(key) {
            Some(i) => {
                proof {
                    lemma_assoc_map_index(self.entries@, i as int);
                    lemma_assoc_map_update(self.entries@, i as int, bids_view);
                    lemma_seq_sum_update(
                        self.entries@,
                        bids_entry_weight(),
                        i as int,
                        (key, bids_view),
                    );
                }
                self.entries.set(i, (key, bids));
            },
            None => {
                proof {
                    lemma_assoc_map_contains(self.entries@, key);
                    lemma_assoc_map_push(self.entries@, key, bids_view);
                    lemma_seq_sum_push(self.entries@, bids_entry_weight(), (key, bids_view));
                }
                self.entries.push((key, bids));
            },
        }
    }
}

} // verus!
