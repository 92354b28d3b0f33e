//! Order data: the key an asset is listed under, the sell order record, the
//! standing bid record, and the per-asset collection of bids keyed by bidder.

use crate::assoc::assoc_map;
use crate::assoc::distinct_keys;
use crate::assoc::has_key;
use crate::assoc::lemma_assoc_map_contains;
use crate::assoc::lemma_assoc_map_index;
use crate::assoc::lemma_assoc_map_push;
use crate::assoc::lemma_assoc_map_remove;
use crate::assoc::lemma_assoc_map_update;
use crate::assoc::lemma_seq_sum_push;
use crate::assoc::lemma_seq_sum_remove;
use crate::assoc::lemma_seq_sum_update;
use crate::assoc::seq_sum;
use crate::u256::U256;
use crate::Address;
use vstd::prelude::*;

verus! {

/// The key a listing or a bid collection lives under: one asset of one
/// collection.
#[derive(Clone, Copy, Debug, PartialEq, Eq, Structural)]
pub struct AssetKey {
    pub collection: u64,
    pub token_id: u64,
}

/// An active sell order. Its existence is the authoritative signal that the
/// asset is held in escrow by the marketplace.
#[derive(Clone, Copy, Debug, PartialEq, Eq, Structural)]
pub struct SellOrder {
    pub creator: Address,
    pub collection: u64,
    pub token_id: u64,
    /// `None` asks for native currency; `Some` names a fungible token contract.
    pub pay_token: Option<u64>,
    pub price: U256,
    pub start_time: u64,
}

/// A standing bid. The offered funds are already escrowed when the bid is
/// recorded.
#[derive(Clone, Copy, Debug, PartialEq, Eq, Structural)]
pub struct BuyOrder {
    /// `None` offers native currency; `Some` names a fungible token contract.
    pub pay_token: Option<u64>,
    pub price: U256,
    pub start_time: u64,
    /// Where an accepted bid's payout goes instead of the seller, if anywhere.
    pub additional_recipient: Option<Address>,
}


/// The native units a bid holds in escrow: its price for a native bid,
/// nothing for a fungible one, whose funds sit in the token registry instead.
pub open spec fn bid_native_weight(b: BuyOrder) -> nat {
    match b.pay_token {
        None => b.price.as_nat(),
        Some(_) => 0,
    }
}

/// The weight of one bid entry, as a function over entries.
pub open spec fn bid_entry_weight() -> spec_fn((Address, BuyOrder)) -> nat {
    |e: (Address, BuyOrder)| bid_native_weight(e.1)
}

/// The bids standing on one asset, at most one per bidder.
pub struct Bids {
    pub entries: Vec<(Address, BuyOrder)>,
}

impl Bids {
    /// The bidder-to-bid map these entries stand for.
    pub open spec fn as_map(self) -> Map<Address, BuyOrder> {
        assoc_map(self.entries@)
    }

    pub open spec fn wf(self) -> bool {
        distinct_keys(self.entries@)
    }


    /// The native units all these bids hold in the purse together.
    pub open spec fn native_total(self) -> nat {
        seq_sum(self.entries@, bid_entry_weight())
    }

    /// This bidder's share of the native total.
    pub open spec fn native_contribution(self, bidder: Address) -> nat {
        if self.as_map().contains_key(bidder) {
            bid_native_weight(self.as_map()[bidder])
        } else {
            0
        }
    }

    pub fn new() -> (r: Bids)
        ensures
            r.wf(),
            r.as_map() == Map::<Address, BuyOrder>::empty(),
            r.native_total() == 0,
    {
        Bids { entries: Vec::new() }
    }

    fn find(&self, bidder: Address) -> (r: Option<usize>)
        ensures
            match r {
                Some(i) => i < self.entries@.len() && self.entries@[i as int].0 == bidder,
                None => !has_key(self.entries@, bidder),
            },
    {
        let mut i: usize = 0;
        while i < self.entries.len()
            invariant
                i <= self.entries@.len(),
                forall|j: int| 0 <= j < i ==> (#[trigger] self.entries@[j]).0 != bidder,
            decreases self.entries@.len() - i,
        {
            if self.entries[i].0 == bidder {
                return Some(i);
            }
            i += 1;
        }
        proof {
            if has_key(self.entries@, bidder) {
                let j = choose|j: int|
                    0 <= j < self.entries@.len() && (#[trigger] self.entries@[j]).0 == bidder;
            }
        }
        None
    }

    pub fn contains_key(&self, bidder: Address) -> (r: bool)
        requires
            self.wf(),
        ensures
            r == self.as_map().contains_key(bidder),
    {
        proof {
            lemma_assoc_map_contains(self.entries@, bidder);
        }
        match self.find(bidder) {
            Some(i) => {
                proof {
                    lemma_assoc_map_index(self.entries@, i as int);
                }
                true
            },
            None => false,
        }
    }

    pub fn get(&self, bidder: Address) -> (r: Option<BuyOrder>)
        requires
            self.wf(),
        ensures
            match r {
                Some(bid) => self.as_map().contains_key(bidder) && self.as_map()[bidder] == bid,
                None => !self.as_map().contains_key(bidder),
            },
    {
        proof {
            lemma_assoc_map_contains(self.entries@, bidder);
        }
        match self.find(bidder) {
            Some(i) => {
                proof {
                    lemma_assoc_map_index(self.entries@, i as int);
                }
                Some(self.entries[i].1)
            },
            None => None,
        }
    }

    /// Record or replace this bidder's bid.
    pub fn insert(&mut self, bidder: Address, bid: BuyOrder)
        requires
            old(self).wf(),
        ensures
            final(self).wf(),
            final(self).as_map() == old(self).as_map().insert(bidder, bid),
            final(self).native_total() + old(self).native_contribution(bidder) == old(
                self,
            ).native_total() + bid_native_weight(bid),
    {
        match self.find(bidder) {
            Some(i) => {
                proof {
                    lemma_assoc_map_index(self.entries@, i as int);
                    lemma_assoc_map_update(self.entries@, i as int, bid);
                    lemma_seq_sum_update(
                        self.entries@,
                        bid_entry_weight(),
                        i as int,
                        (bidder, bid),
                    );
                }
                self.entries.set(i, (bidder, bid));
            },
            None => {
                proof {
                    lemma_assoc_map_contains(self.entries@, bidder);
                    lemma_assoc_map_push(self.entries@, bidder, bid);
                    lemma_seq_sum_push(self.entries@, bid_entry_weight(), (bidder, bid));
                }
                self.entries.push((bidder, bid));
            },
        }
    }

    /// Drop this bidder's bid, if any.
    pub fn remove(&mut self, bidder: Address)
        requires
            old(self).wf(),
        ensures
            final(self).wf(),
            final(self).as_map() == old(self).as_map().remove(bidder),
            final(self).native_total() + old(self).native_contribution(bidder) == old(
                self,
            ).native_total(),
    {
        match self.find(bidder) {
            Some(i) => {
                proof {
                    lemma_assoc_map_index(self.entries@, i as int);
                    lemma_assoc_map_remove(self.entries@, i as int);
                    lemma_seq_sum_remove(self.entries@, bid_entry_weight(), i as int);
                }
                self.entries.remove(i);
            },
            None => {
                proof {
                    lemma_assoc_map_contains(self.entries@, bidder);
                    assert(self.as_map().remove(bidder) =~= self.as_map());
                }
            },
        }
    }

    /// An owned copy with the same contents.
    pub fn duplicate(&self) -> (r: Bids)
        ensures
            r.entries@ == self.entries@,
            r.wf() == self.wf(),
            r.as_map() == self.as_map(),
    {
        let mut out: Vec<(Address, BuyOrder)> = Vec::new();
        let mut i: usize = 0;
        while i < self.entries.len()
            invariant
                i <= self.entries@.len(),
                out@ == self.entries@.subrange(0, i as int),
            decreases self.entries@.len() - i,
        {
            out.push((self.entries[i].0, self.entries[i].1));
            proof {
                assert(out@ =~= self.entries@.subrange(0, i + 1 as int));
            }
            i += 1;
        }
        proof {
            assert(out@ =~= self.entries@);
        }
        Bids { entries: out }
    }
}

} // verus!
