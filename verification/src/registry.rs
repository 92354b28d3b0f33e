//! In-memory models of the marketplace's external collaborators: the
//! non-fungible asset registry, the fungible token registry, and the
//! native-currency ledger with the marketplace's custodial purse. The core
//! consumes them through these narrow interfaces, so tests can drive whole
//! trades deterministically.

use crate::assoc::assoc_map;
use crate::assoc::distinct_keys;
use crate::assoc::has_key;
use crate::assoc::lemma_assoc_map_contains;
use crate::assoc::lemma_assoc_map_index;
use crate::assoc::lemma_assoc_map_push;
use crate::assoc::lemma_assoc_map_remove;
use crate::assoc::lemma_assoc_map_update;
use crate::orders::AssetKey;
use crate::u256::pow256;
use crate::u256::U256;
use crate::u512::pow512;
use crate::u512::U512;
use crate::Address;
use crate::Error;
use vstd::prelude::*;

verus! {

/// One asset's registry entry: its owner and the spender approved to move it,
/// if any.
#[derive(Clone, Copy, Debug, PartialEq, Eq, Structural)]
pub struct NftRecord {
    pub owner: Address,
    pub approved: Option<Address>,
}

/// The non-fungible asset registry, covering every collection: each asset has
/// one owner and at most one approved spender.
pub struct NftRegistry {
    pub entries: Vec<(AssetKey, NftRecord)>,
}

impl NftRegistry {
    pub open spec fn recs(self) -> Map<AssetKey, NftRecord> {
        assoc_map(self.entries@)
    }

    pub open spec fn wf(self) -> bool {
        distinct_keys(self.entries@)
    }

    /// Who owns the asset, if the registry knows it.
    pub open spec fn owner_of_spec(self, key: AssetKey) -> Option<Address> {
        if self.recs().contains_key(key) {
            Some(self.recs()[key].owner)
        } else {
            None
        }
    }

    /// The spender approved on the asset, if any.
    pub open spec fn approved_spec(self, key: AssetKey) -> Option<Address> {
        if self.recs().contains_key(key) {
            self.recs()[key].approved
        } else {
            None
        }
    }

    pub fn new() -> (r: NftRegistry)
        ensures
            r.wf(),
            r.recs() == Map::<AssetKey, NftRecord>::empty(),
    {
        NftRegistry { entries: Vec::new() }
    }

    fn find(&self, key: AssetKey) -> (r: Option<usize>)
        ensures
            match r {
                Some(i) => i < self.entries@.len() && self.entries@[i as int].0 == key,
                None => !has_key(self.entries@, key),
            },
    {
        let mut i: usize = 0;
        while i < self.entries.len()
            invariant
                i <= self.entries@.len(),
                forall|j: int| 0 <= j < i ==> (#[trigger] self.entries@[j]).0 != key,
            decreases self.entries@.len() - i,
        {
            if self.entries[i].0 == key {
                return Some(i);
            }
            i += 1;
        }
        proof {
            if has_key(self.entries@, key) {
                let j = choose|j: int|
                    0 <= j < self.entries@.len() && (#[trigger] self.entries@[j]).0 == key;
            }
        }
        None
    }

    fn set_record(&mut self, key: AssetKey, rec: NftRecord)
        requires
            old(self).wf(),
        ensures
            final(self).wf(),
            final(self).recs() == old(self).recs().insert(key, rec),
    {
        match self.find(key) {
            Some(i) => {
                proof {
                    lemma_assoc_map_update(self.entries@, i as int, rec);
                }
                self.entries.set(i, (key, rec));
            },
            None => {
                proof {
                    lemma_assoc_map_push(self.entries@, key, rec);
                }
                self.entries.push((key, rec));
            },
        }
    }

    /// Register a fresh asset under an owner.
    pub fn mint(&mut self, collection: u64, token_id: u64, owner: Address)
        requires
            old(self).wf(),
            !old(self).recs().contains_key(AssetKey { collection, token_id }),
        ensures
            final(self).wf(),
            final(self).recs() == old(self).recs().insert(
                AssetKey { collection, token_id },
                NftRecord { owner, approved: None },
            ),
    {
        let key = AssetKey { collection, token_id };
        self.set_record(key, NftRecord { owner, approved: None });
    }

    /// Who owns the asset, if the registry knows it.
    pub fn owner_of(&self, collection: u64, token_id: u64) -> (r: Option<Address>)
        requires
            self.wf(),
        ensures
            r == self.owner_of_spec(AssetKey { collection, token_id }),
    {
        let key = AssetKey { collection, token_id };
        proof {
            lemma_assoc_map_contains(self.entries@, key);
        }
        match self.find(key) {
            Some(i) => {
                proof {
                    lemma_assoc_map_index(self.entries@, i as int);
                }
                Some(self.entries[i].1.owner)
            },
            None => None,
        }
    }

    /// The approval on an asset as seen by its claimed owner: `Some` only when
    /// the claimant indeed owns the asset and a spender is approved.
    pub fn get_approved(&self, owner: Address, collection: u64, token_id: u64) -> (r: Option<
        Address,
    >)
        requires
            self.wf(),
        ensures
            r == (if self.owner_of_spec(AssetKey { collection, token_id }) == Some(owner) {
                self.approved_spec(AssetKey { collection, token_id })
            } else {
                None
            }),
    {
        let key = AssetKey { collection, token_id };
        proof {
            lemma_assoc_map_contains(self.entries@, key);
        }
        match self.find(key) {
            Some(i) => {
                proof {
                    lemma_assoc_map_index(self.entries@, i as int);
                }
                if self.entries[i].1.owner == owner {
                    self.entries[i].1.approved
                } else {
                    None
                }
            },
            None => None,
        }
    }

    /// Approve a spender on an asset the caller owns.
    pub fn approve(&mut self, caller: Address, collection: u64, token_id: u64, spender: Address)
        -> (r: Result<(), Error>)
        requires
            old(self).wf(),
        ensures
            final(self).wf(),
            old(self).owner_of_spec(AssetKey { collection, token_id }) != Some(caller) ==> r
                == Err::<(), Error>(Error::NotTokenOwner) && final(self).recs() == old(
                self,
            ).recs(),
            old(self).owner_of_spec(AssetKey { collection, token_id }) == Some(caller) ==> r
                == Ok::<(), Error>(()) && final(self).recs() == old(self).recs().insert(
                AssetKey { collection, token_id },
                NftRecord { owner: caller, approved: Some(spender) },
            ),
    {
        let key = AssetKey { collection, token_id };
        proof {
            lemma_assoc_map_contains(self.entries@, key);
        }
        let owner = self.owner_of(collection, token_id);
        match owner {
            Some(o) => {
                if o == caller {
                    self.set_record(key, NftRecord { owner: caller, approved: Some(spender) });
                    Ok(())
                } else {
                    Err(Error::NotTokenOwner)
                }
            },
            None => Err(Error::NotTokenOwner),
        }
    }

    /// Move an asset the caller itself owns. A transfer consumes any
    /// approval standing on the asset.
    pub fn transfer(&mut self, caller: Address, recipient: Address, collection: u64, token_id: u64)
        -> (r: Result<(), Error>)
        requires
            old(self).wf(),
        ensures
            final(self).wf(),
            old(self).owner_of_spec(AssetKey { collection, token_id }) != Some(caller) ==> r
                == Err::<(), Error>(Error::NotTokenOwner) && final(self).recs() == old(
                self,
            ).recs(),
            old(self).owner_of_spec(AssetKey { collection, token_id }) == Some(caller) ==> r
                == Ok::<(), Error>(()) && final(self).recs() == old(self).recs().insert(
                AssetKey { collection, token_id },
                NftRecord { owner: recipient, approved: None },
            ),
    {
        self.transfer_from(caller, caller, recipient, collection, token_id)
    }

    /// Move an asset from its owner to a recipient, on the authority of a
    /// spender: the owner itself, or the spender approved on the asset. A
    /// transfer consumes the approval.
    pub fn transfer_from(
        &mut self,
        spender: Address,
        sender: Address,
        recipient: Address,
        collection: u64,
        token_id: u64,
    ) -> (r: Result<(), Error>)
        requires
            old(self).wf(),
        ensures
            final(self).wf(),
            old(self).owner_of_spec(AssetKey { collection, token_id }) != Some(sender) ==> r
                == Err::<(), Error>(Error::NotTokenOwner) && final(self).recs() == old(
                self,
            ).recs(),
            old(self).owner_of_spec(AssetKey { collection, token_id }) == Some(sender) && spender
                != sender && old(self).approved_spec(AssetKey { collection, token_id }) != Some(
                spender,
            ) ==> r == Err::<(), Error>(Error::RequireApprove) && final(self).recs() == old(
                self,
            ).recs(),
            old(self).owner_of_spec(AssetKey { collection, token_id }) == Some(sender) && (spender
                == sender || old(self).approved_spec(AssetKey { collection, token_id }) == Some(
                spender,
            )) ==> r == Ok::<(), Error>(()) && final(self).recs() == old(self).recs().insert(
                AssetKey { collection, token_id },
                NftRecord { owner: recipient, approved: None },
            ),
    {
        let key = AssetKey { collection, token_id };
        proof {
            lemma_assoc_map_contains(self.entries@, key);
        }
        match self.find(key) {
            Some(i) => {
                proof {
                    lemma_assoc_map_index(self.entries@, i as int);
                }
                let rec = self.entries[i].1;
                if rec.owner != sender {
                    return Err(Error::NotTokenOwner);
                }
                if spender != sender && rec.approved != Some(spender) {
                    return Err(Error::RequireApprove);
                }
                self.set_record(key, NftRecord { owner: recipient, approved: None });
                Ok(())
            },
            None => Err(Error::NotTokenOwner),
        }
    }
}

/// The fungible token registry, covering every token contract: balances per
/// holder and allowances per owner-spender pair.
pub struct TokenRegistry {
    pub balances: Vec<((u64, Address), U256)>,
    pub allowances: Vec<((u64, Address, Address), U256)>,
}

impl TokenRegistry {
    pub open spec fn balances_map(self) -> Map<(u64, Address), U256> {
        assoc_map(self.balances@)
    }

    pub open spec fn allowances_map(self) -> Map<(u64, Address, Address), U256> {
        assoc_map(self.allowances@)
    }

    /// A holder's balance of a token; zero where no entry exists.
    pub open spec fn balance_of_spec(self, token: u64, holder: Address) -> nat {
        if self.balances_map().contains_key((token, holder)) {
            self.balances_map()[(token, holder)].as_nat()
        } else {
            0
        }
    }

    /// What a spender may still move out of an owner's balance; zero default.
    pub open spec fn allowance_spec(self, token: u64, owner: Address, spender: Address) -> nat {
        if self.allowances_map().contains_key((token, owner, spender)) {
            self.allowances_map()[(token, owner, spender)].as_nat()
        } else {
            0
        }
    }

    /// Every balance reads the same in `post` as in `self`.
    pub open spec fn balances_same(self, post: TokenRegistry) -> bool {
        forall|t: u64, h: Address| #[trigger] post.balance_of_spec(t, h) == self.balance_of_spec(
            t,
            h,
        )
    }

    /// Every allowance reads the same in `post` as in `self`.
    pub open spec fn allowances_same(self, post: TokenRegistry) -> bool {
        forall|t: u64, o: Address, s: Address| #[trigger] post.allowance_spec(t, o, s)
            == self.allowance_spec(t, o, s)
    }

    pub open spec fn wf(self) -> bool {
        &&& distinct_keys(self.balances@)
        &&& distinct_keys(self.allowances@)
    }

    pub fn new() -> (r: TokenRegistry)
        ensures
            r.wf(),
            forall|t: u64, h: Address| #[trigger] r.balance_of_spec(t, h) == 0,
            forall|t: u64, o: Address, s: Address| #[trigger] r.allowance_spec(t, o, s) == 0,
    {
        let r = TokenRegistry { balances: Vec::new(), allowances: Vec::new() };
        proof {
            assert forall|t: u64, h: Address| #[trigger] r.balance_of_spec(t, h) == 0 by {
                lemma_assoc_map_contains(r.balances@, (t, h));
            }
            assert forall|t: u64, o: Address, s: Address| #[trigger] r.allowance_spec(t, o, s)
                == 0 by {
                lemma_assoc_map_contains(r.allowances@, (t, o, s));
            }
        }
        r
    }

    fn find_balance(&self, key: (u64, Address)) -> (r: Option<usize>)
        ensures
            match r {
                Some(i) => i < self.balances@.len() && self.balances@[i as int].0 == key,
                None => !has_key(self.balances@, key),
            },
    {
        let mut i: usize = 0;
        while i < self.balances.len()
            invariant
                i <= self.balances@.len(),
                forall|j: int| 0 <= j < i ==> (#[trigger] self.balances@[j]).0 != key,
            decreases self.balances@.len() - i,
        {
            if self.balances[i].0.0 == key.0 && self.balances[i].0.1 == key.1 {
                return Some(i);
            }
            i += 1;
        }
        proof {
            if has_key(self.balances@, key) {
                let j = choose|j: int|
                    0 <= j < self.balances@.len() && (#[trigger] self.balances@[j]).0 == key;
            }
        }
        None
    }

    fn find_allowance(&self, key: (u64, Address, Address)) -> (r: Option<usize>)
        ensures
            match r {
                Some(i) => i < self.allowances@.len() && self.allowances@[i as int].0 == key,
                None => !has_key(self.allowances@, key),
            },
    {
        let mut i: usize = 0;
        while i < self.allowances.len()
            invariant
                i <= self.allowances@.len(),
                forall|j: int| 0 <= j < i ==> (#[trigger] self.allowances@[j]).0 != key,
            decreases self.allowances@.len() - i,
        {
            if self.allowances[i].0.0 == key.0 && self.allowances[i].0.1 == key.1
                && self.allowances[i].0.2 == key.2 {
                return Some(i);
            }
            i += 1;
        }
        proof {
            if has_key(self.allowances@, key) {
                let j = choose|j: int|
                    0 <= j < self.allowances@.len() && (#[trigger] self.allowances@[j]).0 == key;
            }
        }
        None
    }

    /// A holder's balance of a token.
    pub fn balance_of(&self, token: u64, holder: Address) -> (r: U256)
        requires
            self.wf(),
        ensures
            r.as_nat() == self.balance_of_spec(token, holder),
    {
        proof {
            lemma_assoc_map_contains(self.balances@, (token, holder));
        }
        match self.find_balance((token, holder)) {
            Some(i) => {
                proof {
                    lemma_assoc_map_index(self.balances@, i as int);
                }
                self.balances[i].1
            },
            None => U256::zero(),
        }
    }

    /// What a spender may still move out of an owner's balance.
    pub fn allowance(&self, token: u64, owner: Address, spender: Address) -> (r: U256)
        requires
            self.wf(),
        ensures
            r.as_nat() == self.allowance_spec(token, owner, spender),
    {
        proof {
            lemma_assoc_map_contains(self.allowances@, (token, owner, spender));
        }
        match self.find_allowance((token, owner, spender)) {
            Some(i) => {
                proof {
                    lemma_assoc_map_index(self.allowances@, i as int);
                }
                self.allowances[i].1
            },
            None => U256::zero(),
        }
    }

    fn set_balance(&mut self, token: u64, holder: Address, value: U256)
        requires
            old(self).wf(),
        ensures
            final(self).wf(),
            final(self).allowances@ == old(self).allowances@,
            forall|t: u64, h: Address| #[trigger] final(self).balance_of_spec(t, h) == (if t
                == token && h == holder {
                value.as_nat()
            } else {
                old(self).balance_of_spec(t, h)
            }),
    {
        let key = (token, holder);
        match self.find_balance(key) {
            Some(i) => {
                proof {
                    lemma_assoc_map_update(self.balances@, i as int, value);
                }
                self.balances.set(i, (key, value));
            },
            None => {
                proof {
                    lemma_assoc_map_push(self.balances@, key, value);
                }
                self.balances.push((key, value));
            },
        }
    }

    fn set_allowance(&mut self, token: u64, owner: Address, spender: Address, value: U256)
        requires
            old(self).wf(),
        ensures
            final(self).wf(),
            final(self).balances@ == old(self).balances@,
            forall|t: u64, o: Address, s: Address| #[trigger] final(self).allowance_spec(t, o, s)
                == (if t == token && o == owner && s == spender {
                value.as_nat()
            } else {
                old(self).allowance_spec(t, o, s)
            }),
    {
        let key = (token, owner, spender);
        match self.find_allowance(key) {
            Some(i) => {
                proof {
                    lemma_assoc_map_update(self.allowances@, i as int, value);
                }
                self.allowances.set(i, (key, value));
            },
            None => {
                proof {
                    lemma_assoc_map_push(self.allowances@, key, value);
                }
                self.allowances.push((key, value));
            },
        }
    }

    /// Create new units of a token in a holder's balance.
    pub fn mint(&mut self, token: u64, to: Address, amount: U256) -> (r: Result<(), Error>)
        requires
            old(self).wf(),
        ensures
            final(self).wf(),
            old(self).balance_of_spec(token, to) + amount.as_nat() >= pow256() ==> r == Err::<
                (),
                Error,
            >(Error::Overflow) && old(self).balances_same(*final(self)) && old(self).allowances_same(
                *final(self),
            ),
            old(self).balance_of_spec(token, to) + amount.as_nat() < pow256() ==> r == Ok::<
                (),
                Error,
            >(()) && old(self).allowances_same(*final(self)) && forall|
                t: u64,
                h: Address,
            | #[trigger] final(self).balance_of_spec(t, h) == (if t == token && h == to {
                old(self).balance_of_spec(t, h) + amount.as_nat()
            } else {
                old(self).balance_of_spec(t, h)
            }),
    {
        let current = self.balance_of(token, to);
        match current.checked_add(amount) {
            Some(updated) => {
                self.set_balance(token, to, updated);
                Ok(())
            },
            None => Err(Error::Overflow),
        }
    }

    /// Let a spender move up to `amount` out of the caller's balance.
    pub fn approve(&mut self, token: u64, caller: Address, spender: Address, amount: U256)
        requires
            old(self).wf(),
        ensures
            final(self).wf(),
            old(self).balances_same(*final(self)),
            forall|t: u64, o: Address, s: Address| #[trigger] final(self).allowance_spec(t, o, s)
                == (if t == token && o == caller && s == spender {
                amount.as_nat()
            } else {
                old(self).allowance_spec(t, o, s)
            }),
    {
        self.set_allowance(token, caller, spender, amount);
    }

    /// Whether moving `amount` of `token` from `from` to `to` is possible:
    /// the sender's balance covers it and the recipient's balance stays in
    /// range.
    pub open spec fn can_move(self, token: u64, from: Address, to: Address, amount: nat) -> bool {
        &&& self.balance_of_spec(token, from) >= amount
        &&& (from == to || self.balance_of_spec(token, to) + amount < pow256())
    }

    /// The balance change a completed move leaves behind, stated pointwise so
    /// a sender paying itself stays balanced.
    pub open spec fn moved(
        self,
        post: TokenRegistry,
        token: u64,
        from: Address,
        to: Address,
        amount: nat,
    ) -> bool {
        forall|t: u64, h: Address|
            #![trigger post.balance_of_spec(t, h)]
            post.balance_of_spec(t, h) + (if t == token && h == from {
                amount
            } else {
                0
            }) == self.balance_of_spec(t, h) + (if t == token && h == to {
                amount
            } else {
                0
            })
    }

    /// Move tokens out of the caller's own balance.
    pub fn transfer(&mut self, token: u64, caller: Address, to: Address, amount: U256) -> (r:
        Result<(), Error>)
        requires
            old(self).wf(),
        ensures
            final(self).wf(),
            old(self).balance_of_spec(token, caller) < amount.as_nat() ==> r == Err::<(), Error>(
                Error::InsufficientBalance,
            ),
            old(self).balance_of_spec(token, caller) >= amount.as_nat() && !(caller == to || old(
                self,
            ).balance_of_spec(token, to) + amount.as_nat() < pow256()) ==> r == Err::<(), Error>(
                Error::Overflow,
            ),
            old(self).can_move(token, caller, to, amount.as_nat()) ==> r == Ok::<(), Error>(())
                && old(self).moved(*final(self), token, caller, to, amount.as_nat()),
            (r is Err) ==> old(self).balances_same(*final(self)),
            old(self).allowances_same(*final(self)),
    {
        let bal_from = self.balance_of(token, caller);
        if bal_from.lt(&amount) {
            return Err(Error::InsufficientBalance);
        }
        let bal_to = self.balance_of(token, to);
        if caller != to && bal_to.checked_add(amount).is_none() {
            return Err(Error::Overflow);
        }
        let debited = bal_from.checked_sub(amount).unwrap();
        self.set_balance(token, caller, debited);
        let bal_to_now = self.balance_of(token, to);
        let credited = bal_to_now.checked_add(amount).unwrap();
        self.set_balance(token, to, credited);
        Ok(())
    }

    /// The balance `h` would hold after moving `amount` of `token` from
    /// `from` to `to`.
    pub open spec fn balance_after(
        self,
        token: u64,
        from: Address,
        to: Address,
        amount: nat,
        h: Address,
    ) -> int {
        self.balance_of_spec(token, h) - (if h == from {
            amount
        } else {
            0
        }) + (if h == to {
            amount
        } else {
            0
        })
    }

    /// Whether two moves in a row are possible: `n1` to `to1`, then `n2` to
    /// `to2`, both out of `from`.
    pub open spec fn can_move2(
        self,
        token: u64,
        from: Address,
        to1: Address,
        n1: nat,
        to2: Address,
        n2: nat,
    ) -> bool {
        &&& self.can_move(token, from, to1, n1)
        &&& self.balance_after(token, from, to1, n1, from) >= n2
        &&& (from == to2 || self.balance_after(token, from, to1, n1, to2) + n2 < pow256())
    }

    /// Which failure the first impossible step of the two moves surfaces.
    pub open spec fn move2_err(
        self,
        token: u64,
        from: Address,
        to1: Address,
        n1: nat,
        to2: Address,
        n2: nat,
    ) -> Error {
        if self.balance_of_spec(token, from) < n1 {
            Error::InsufficientBalance
        } else if !(from == to1 || self.balance_of_spec(token, to1) + n1 < pow256()) {
            Error::Overflow
        } else if self.balance_after(token, from, to1, n1, from) < n2 {
            Error::InsufficientBalance
        } else {
            Error::Overflow
        }
    }

    /// The net balance change the two moves leave behind, stated pointwise.
    pub open spec fn moved2(
        self,
        post: TokenRegistry,
        token: u64,
        from: Address,
        to1: Address,
        n1: nat,
        to2: Address,
        n2: nat,
    ) -> bool {
        forall|t: u64, h: Address|
            #![trigger post.balance_of_spec(t, h)]
            post.balance_of_spec(t, h) + (if t == token && h == from {
                n1 + n2
            } else {
                0
            }) == self.balance_of_spec(t, h) + (if t == token && h == to1 {
                n1
            } else {
                0
            }) + (if t == token && h == to2 {
                n2
            } else {
                0
            })
    }

    /// Perform two moves out of `from` as one atomic step: everything is
    /// checked up front, so a failure changes nothing. With a spender, both
    /// moves draw on the spender's allowance, which must cover their sum.
    #[verifier::spinoff_prover]
    #[verifier::rlimit(100)]
    pub(crate) fn transfer_two(
        &mut self,
        token: u64,
        spender: Option<Address>,
        from: Address,
        to1: Address,
        n1: U256,
        to2: Address,
        n2: U256,
    ) -> (r: Result<(), Error>)
        requires
            old(self).wf(),
            spender matches Some(s) ==> old(self).allowance_spec(token, from, s) >= n1.as_nat()
                + n2.as_nat(),
        ensures
            final(self).wf(),
            !old(self).can_move2(token, from, to1, n1.as_nat(), to2, n2.as_nat()) ==> r == Err::<
                (),
                Error,
            >(old(self).move2_err(token, from, to1, n1.as_nat(), to2, n2.as_nat())) && old(
                self,
            ).balances_same(*final(self)) && old(self).allowances_same(*final(self)),
            old(self).can_move2(token, from, to1, n1.as_nat(), to2, n2.as_nat()) ==> r == Ok::<
                (),
                Error,
            >(()) && old(self).moved2(
                *final(self),
                token,
                from,
                to1,
                n1.as_nat(),
                to2,
                n2.as_nat(),
            ) && (forall|t: u64, o: Address, s: Address| #[trigger] final(self).allowance_spec(
                t,
                o,
                s,
            ) + (if spender == Some(s) && t == token && o == from {
                n1.as_nat() + n2.as_nat()
            } else {
                0
            }) == old(self).allowance_spec(t, o, s)),
    {
        let bal_from = self.balance_of(token, from);
        if bal_from.lt(&n1) {
            return Err(Error::InsufficientBalance);
        }
        if from != to1 && self.balance_of(token, to1).checked_add(n1).is_none() {
            return Err(Error::Overflow);
        }
        let after_from = if from == to1 {
            bal_from
        } else {
            bal_from.checked_sub(n1).unwrap()
        };
        if after_from.lt(&n2) {
            return Err(Error::InsufficientBalance);
        }
        let after_to2 = if to2 == from {
            after_from
        } else if to2 == to1 {
            self.balance_of(token, to1).checked_add(n1).unwrap()
        } else {
            self.balance_of(token, to2)
        };
        if from != to2 && after_to2.checked_add(n2).is_none() {
            return Err(Error::Overflow);
        }
        let ghost pre = *self;
        let r1 = match spender {
            Some(s) => self.transfer_from(token, s, from, to1, n1),
            None => self.transfer(token, from, to1, n1),
        };
        proof {
            assert(r1 == Ok::<(), Error>(()));
        }
        let ghost mid = *self;
        let r2 = match spender {
            Some(s) => self.transfer_from(token, s, from, to2, n2),
            None => self.transfer(token, from, to2, n2),
        };
        proof {
            assert(r2 == Ok::<(), Error>(()));
            assert(pre.moved2(*self, token, from, to1, n1.as_nat(), to2, n2.as_nat())) by {
                assert forall|t: u64, h: Address|
                    #![trigger self.balance_of_spec(t, h)]
                    self.balance_of_spec(t, h) + (if t == token && h == from {
                        n1.as_nat() + n2.as_nat()
                    } else {
                        0
                    }) == pre.balance_of_spec(t, h) + (if t == token && h == to1 {
                        n1.as_nat()
                    } else {
                        0
                    }) + (if t == token && h == to2 {
                        n2.as_nat()
                    } else {
                        0
                    }) by {
                    assert(mid.balance_of_spec(t, h) + (if t == token && h == from {
                        n1.as_nat()
                    } else {
                        0
                    }) == pre.balance_of_spec(t, h) + (if t == token && h == to1 {
                        n1.as_nat()
                    } else {
                        0
                    }));
                    assert(self.balance_of_spec(t, h) + (if t == token && h == from {
                        n2.as_nat()
                    } else {
                        0
                    }) == mid.balance_of_spec(t, h) + (if t == token && h == to2 {
                        n2.as_nat()
                    } else {
                        0
                    }));
                }
            }
            assert forall|t: u64, o: Address, s: Address| #[trigger] self.allowance_spec(t, o, s)
                + (if spender == Some(s) && t == token && o == from {
                n1.as_nat() + n2.as_nat()
            } else {
                0
            }) == pre.allowance_spec(t, o, s) by {
                if spender is Some {
                    assert(mid.allowance_spec(t, o, s) + (if spender == Some(s) && t == token && o
                        == from {
                        n1.as_nat()
                    } else {
                        0
                    }) == pre.allowance_spec(t, o, s));
                } else {
                    assert(mid.allowance_spec(t, o, s) == pre.allowance_spec(t, o, s));
                    assert(self.allowance_spec(t, o, s) == mid.allowance_spec(t, o, s));
                }
            }
        }
        Ok(())
    }

    /// Move tokens out of another owner's balance on the strength of an
    /// allowance, which the move consumes.
    pub fn transfer_from(
        &mut self,
        token: u64,
        spender: Address,
        from: Address,
        to: Address,
        amount: U256,
    ) -> (r: Result<(), Error>)
        requires
            old(self).wf(),
        ensures
            final(self).wf(),
            old(self).allowance_spec(token, from, spender) < amount.as_nat() ==> r == Err::<
                (),
                Error,
            >(Error::InsufficientAllowance),
            old(self).allowance_spec(token, from, spender) >= amount.as_nat() && old(
                self,
            ).balance_of_spec(token, from) < amount.as_nat() ==> r == Err::<(), Error>(
                Error::InsufficientBalance,
            ),
            old(self).allowance_spec(token, from, spender) >= amount.as_nat() && old(
                self,
            ).balance_of_spec(token, from) >= amount.as_nat() && !(from == to || old(
                self,
            ).balance_of_spec(token, to) + amount.as_nat() < pow256()) ==> r == Err::<(), Error>(
                Error::Overflow,
            ),
            old(self).allowance_spec(token, from, spender) >= amount.as_nat() && old(
                self,
            ).can_move(token, from, to, amount.as_nat()) ==> r == Ok::<(), Error>(()) && old(
                self,
            ).moved(*final(self), token, from, to, amount.as_nat()) && forall|
                t: u64,
                o: Address,
                s: Address,
            | #[trigger] final(self).allowance_spec(t, o, s) + (if t == token && o == from && s
                == spender {
                amount.as_nat()
            } else {
                0
            }) == old(self).allowance_spec(t, o, s),
            (r is Err) ==> old(self).balances_same(*final(self)) && old(self).allowances_same(
                *final(self),
            ),
    {
        let allowed = self.allowance(token, from, spender);
        if allowed.lt(&amount) {
            return Err(Error::InsufficientAllowance);
        }
        let bal_from = self.balance_of(token, from);
        if bal_from.lt(&amount) {
            return Err(Error::InsufficientBalance);
        }
        let bal_to = self.balance_of(token, to);
        if from != to && bal_to.checked_add(amount).is_none() {
            return Err(Error::Overflow);
        }
        let remaining = allowed.checked_sub(amount).unwrap();
        self.set_allowance(token, from, spender, remaining);
        let ghost mid1 = *self;
        let debited = self.balance_of(token, from).checked_sub(amount).unwrap();
        self.set_balance(token, from, debited);
        let ghost mid2 = *self;
        let bal_to_now = self.balance_of(token, to);
        let credited = bal_to_now.checked_add(amount).unwrap();
        self.set_balance(token, to, credited);
        proof {
            assert forall|t: u64, o: Address, s: Address| #[trigger] self.allowance_spec(t, o, s)
                + (if t == token && o == from && s == spender {
                amount.as_nat()
            } else {
                0
            }) == old(self).allowance_spec(t, o, s) by {
                assert(self.allowances@ == mid1.allowances@);
                assert(mid1.allowance_spec(t, o, s) == (if t == token && o == from && s == spender {
                    remaining.as_nat()
                } else {
                    old(self).allowance_spec(t, o, s)
                }));
            }
            assert forall|t: u64, h: Address|
                #![trigger self.balance_of_spec(t, h)]
                self.balance_of_spec(t, h) + (if t == token && h == from {
                    amount.as_nat()
                } else {
                    0
                }) == old(self).balance_of_spec(t, h) + (if t == token && h == to {
                    amount.as_nat()
                } else {
                    0
                }) by {
                assert(mid1.balance_of_spec(t, h) == old(self).balance_of_spec(t, h));
                assert(mid2.balance_of_spec(t, h) == (if t == token && h == from {
                    debited.as_nat()
                } else {
                    mid1.balance_of_spec(t, h)
                }));
                assert(self.balance_of_spec(t, h) == (if t == token && h == to {
                    credited.as_nat()
                } else {
                    mid2.balance_of_spec(t, h)
                }));
            }
            assert(old(self).moved(*self, token, from, to, amount.as_nat()));
        }
        Ok(())
    }
}

/// The native-currency ledger: each identity's balance, plus the
/// marketplace's custodial deposit purse.
pub struct NativeLedger {
    pub accounts: Vec<(Address, U512)>,
    pub purse: U512,
}

impl NativeLedger {
    pub open spec fn accounts_map(self) -> Map<Address, U512> {
        assoc_map(self.accounts@)
    }

    /// An identity's native balance; zero where no entry exists.
    pub open spec fn balance_spec(self, holder: Address) -> nat {
        if self.accounts_map().contains_key(holder) {
            self.accounts_map()[holder].as_nat()
        } else {
            0
        }
    }

    /// The live balance of the custodial purse.
    pub open spec fn purse_live(self) -> nat {
        self.purse.as_nat()
    }

    /// Every account balance reads the same in `post` as in `self`.
    pub open spec fn accounts_same(self, post: NativeLedger) -> bool {
        forall|a: Address| #[trigger] post.balance_spec(a) == self.balance_spec(a)
    }

    pub open spec fn wf(self) -> bool {
        distinct_keys(self.accounts@)
    }

    pub fn new() -> (r: NativeLedger)
        ensures
            r.wf(),
            r.purse_live() == 0,
            forall|a: Address| #[trigger] r.balance_spec(a) == 0,
    {
        let r = NativeLedger { accounts: Vec::new(), purse: U512::zero() };
        proof {
            assert forall|a: Address| #[trigger] r.balance_spec(a) == 0 by {
                lemma_assoc_map_contains(r.accounts@, a);
            }
        }
        r
    }

    fn find(&self, holder: Address) -> (r: Option<usize>)
        ensures
            match r {
                Some(i) => i < self.accounts@.len() && self.accounts@[i as int].0 == holder,
                None => !has_key(self.accounts@, holder),
            },
    {
        let mut i: usize = 0;
        while i < self.accounts.len()
            invariant
                i <= self.accounts@.len(),
                forall|j: int| 0 <= j < i ==> (#[trigger] self.accounts@[j]).0 != holder,
            decreases self.accounts@.len() - i,
        {
            if self.accounts[i].0 == holder {
                return Some(i);
            }
            i += 1;
        }
        proof {
            if has_key(self.accounts@, holder) {
                let j = choose|j: int|
                    0 <= j < self.accounts@.len() && (#[trigger] self.accounts@[j]).0 == holder;
            }
        }
        None
    }

    /// An identity's native balance.
    pub fn balance_of(&self, holder: Address) -> (r: U512)
        requires
            self.wf(),
        ensures
            r.as_nat() == self.balance_spec(holder),
    {
        proof {
            lemma_assoc_map_contains(self.accounts@, holder);
        }
        match self.find(holder) {
            Some(i) => {
                proof {
                    lemma_assoc_map_index(self.accounts@, i as int);
                }
                self.accounts[i].1
            },
            None => U512::zero(),
        }
    }

    /// The live balance of the custodial purse.
    pub fn purse_balance(&self) -> (r: U512)
        ensures
            r.as_nat() == self.purse_live(),
    {
        self.purse
    }

    fn set_balance(&mut self, holder: Address, value: U512)
        requires
            old(self).wf(),
        ensures
            final(self).wf(),
            final(self).purse == old(self).purse,
            forall|a: Address| #[trigger] final(self).balance_spec(a) == (if a == holder {
                value.as_nat()
            } else {
                old(self).balance_spec(a)
            }),
    {
        match self.find(holder) {
            Some(i) => {
                proof {
                    lemma_assoc_map_update(self.accounts@, i as int, value);
                }
                self.accounts.set(i, (holder, value));
            },
            None => {
                proof {
                    lemma_assoc_map_push(self.accounts@, holder, value);
                }
                self.accounts.push((holder, value));
            },
        }
    }

    /// Create native units in an identity's balance.
    pub fn fund(&mut self, holder: Address, amount: U512) -> (r: Result<(), Error>)
        requires
            old(self).wf(),
        ensures
            final(self).wf(),
            final(self).purse_live() == old(self).purse_live(),
            old(self).balance_spec(holder) + amount.as_nat() >= pow512() ==> r == Err::<(), Error>(
                Error::Overflow,
            ) && old(self).accounts_same(*final(self)),
            old(self).balance_spec(holder) + amount.as_nat() < pow512() ==> r == Ok::<(), Error>(())
                && forall|a: Address| #[trigger] final(self).balance_spec(a) == (if a == holder {
                old(self).balance_spec(a) + amount.as_nat()
            } else {
                old(self).balance_spec(a)
            }),
    {
        let current = self.balance_of(holder);
        match current.checked_add(amount) {
            Some(updated) => {
                self.set_balance(holder, updated);
                Ok(())
            },
            None => Err(Error::Overflow),
        }
    }

    /// Move native units from an identity's balance into the custodial purse:
    /// the deposit step a buyer or bidder performs before a fund-consuming
    /// operation.
    #[verifier::spinoff_prover]
    #[verifier::rlimit(100)]
    pub fn deposit_to_purse(&mut self, from: Address, amount: U512) -> (r: Result<(), Error>)
        requires
            old(self).wf(),
        ensures
            final(self).wf(),
            old(self).balance_spec(from) < amount.as_nat() ==> r == Err::<(), Error>(
                Error::InsufficientBalance,
            ),
            old(self).balance_spec(from) >= amount.as_nat() && old(self).purse_live()
                + amount.as_nat() >= pow512() ==> r == Err::<(), Error>(Error::Overflow),
            old(self).balance_spec(from) >= amount.as_nat() && old(self).purse_live()
                + amount.as_nat() < pow512() ==> r == Ok::<(), Error>(()) && final(self).purse_live() == old(self).purse_live() + amount.as_nat() && forall|a: Address|
                #[trigger] final(self).balance_spec(a) + (if a == from {
                    amount.as_nat()
                } else {
                    0
                }) == old(self).balance_spec(a),
            (r is Err) ==> old(self).accounts_same(*final(self)) && final(self).purse_live()
                == old(self).purse_live(),
    {
        let bal = self.balance_of(from);
        if bal.lt(&amount) {
            return Err(Error::InsufficientBalance);
        }
        match self.purse.checked_add(amount) {
            Some(filled) => {
                let debited = bal.checked_sub(amount).unwrap();
                self.purse = filled;
                self.set_balance(from, debited);
                Ok(())
            },
            None => Err(Error::Overflow),
        }
    }

    /// Whether paying `amount` out of the purse to `to` is possible: the purse
    /// covers it and the recipient's balance stays in range.
    pub open spec fn can_pay(self, to: Address, amount: nat) -> bool {
        &&& self.purse_live() >= amount
        &&& self.balance_spec(to) + amount < pow512()
    }

    /// Whether two payouts from the purse are possible: the purse covers both
    /// and each credited balance stays in range.
    pub open spec fn can_pay2(self, to1: Address, n1: nat, to2: Address, n2: nat) -> bool {
        &&& self.purse_live() >= n1 + n2
        &&& self.balance_spec(to1) + n1 < pow512()
        &&& self.balance_spec(to2) + n2 + (if to2 == to1 {
            n1
        } else {
            0
        }) < pow512()
    }

    /// The net change two payouts leave behind, stated pointwise.
    pub open spec fn paid2(self, post: NativeLedger, to1: Address, n1: nat, to2: Address, n2: nat)
        -> bool {
        &&& post.purse_live() + n1 + n2 == self.purse_live()
        &&& forall|a: Address|
            #![trigger post.balance_spec(a)]
            post.balance_spec(a) == self.balance_spec(a) + (if a == to1 {
                n1
            } else {
                0
            }) + (if a == to2 {
                n2
            } else {
                0
            })
    }

    /// Pay two amounts out of the purse as one atomic step: the credits are
    /// checked up front, so a failure changes nothing. The purse must cover
    /// the sum.
    pub(crate) fn pay_two(&mut self, to1: Address, n1: U512, to2: Address, n2: U512) -> (r: Result<
        (),
        Error,
    >)
        requires
            old(self).wf(),
            old(self).purse_live() >= n1.as_nat() + n2.as_nat(),
        ensures
            final(self).wf(),
            !old(self).can_pay2(to1, n1.as_nat(), to2, n2.as_nat()) ==> r == Err::<(), Error>(
                Error::Overflow,
            ) && old(self).accounts_same(*final(self)) && final(self).purse_live() == old(
                self,
            ).purse_live(),
            old(self).can_pay2(to1, n1.as_nat(), to2, n2.as_nat()) ==> r == Ok::<(), Error>(())
                && old(self).paid2(*final(self), to1, n1.as_nat(), to2, n2.as_nat()),
    {
        let bal1 = self.balance_of(to1);
        let credited1 = match bal1.checked_add(n1) {
            Some(v) => v,
            None => {
                return Err(Error::Overflow);
            },
        };
        let base2 = if to2 == to1 {
            credited1
        } else {
            self.balance_of(to2)
        };
        if base2.checked_add(n2).is_none() {
            return Err(Error::Overflow);
        }
        let ghost pre = *self;
        let r1 = self.pay_from_purse(to1, n1);
        proof {
            assert(r1 == Ok::<(), Error>(()));
        }
        let ghost mid = *self;
        let r2 = self.pay_from_purse(to2, n2);
        proof {
            assert(r2 == Ok::<(), Error>(()));
            assert forall|a: Address|
                #![trigger self.balance_spec(a)]
                self.balance_spec(a) == pre.balance_spec(a) + (if a == to1 {
                    n1.as_nat()
                } else {
                    0
                }) + (if a == to2 {
                    n2.as_nat()
                } else {
                    0
                }) by {
                assert(mid.balance_spec(a) == pre.balance_spec(a) + (if a == to1 {
                    n1.as_nat()
                } else {
                    0
                }));
                assert(self.balance_spec(a) == mid.balance_spec(a) + (if a == to2 {
                    n2.as_nat()
                } else {
                    0
                }));
            }
        }
        Ok(())
    }

    /// Move native units out of the custodial purse to an identity.
    pub(crate) fn pay_from_purse(&mut self, to: Address, amount: U512) -> (r: Result<(), Error>)
        requires
            old(self).wf(),
        ensures
            final(self).wf(),
            old(self).purse_live() < amount.as_nat() ==> r == Err::<(), Error>(
                Error::InsufficientBalance,
            ),
            old(self).purse_live() >= amount.as_nat() && old(self).balance_spec(to)
                + amount.as_nat() >= pow512() ==> r == Err::<(), Error>(Error::Overflow),
            old(self).can_pay(to, amount.as_nat()) ==> r == Ok::<(), Error>(()) && final(self).purse_live() + amount.as_nat() == old(self).purse_live() && forall|a: Address|
                #[trigger] final(self).balance_spec(a) == (if a == to {
                    old(self).balance_spec(a) + amount.as_nat()
                } else {
                    old(self).balance_spec(a)
                }),
            (r is Err) ==> old(self).accounts_same(*final(self)) && final(self).purse_live()
                == old(self).purse_live(),
    {
        if self.purse.lt(&amount) {
            return Err(Error::InsufficientBalance);
        }
        let bal = self.balance_of(to);
        match bal.checked_add(amount) {
            Some(credited) => {
                self.purse = self.purse.checked_sub(amount).unwrap();
                self.set_balance(to, credited);
                Ok(())
            },
            None => Err(Error::Overflow),
        }
    }
}

} // verus!
