//! The order/bid lifecycle state machine. A [`World`] couples the
//! marketplace's own state with the collaborator models, and every entry
//! point is a verified transition: it either completes with the stated
//! effects or fails with the stated error and changes nothing.

use crate::fees::fee_share;
use crate::fees::recipient_share;
use crate::fees::split_u256;
use crate::fees::split_u512;
use crate::orders::AssetKey;
use crate::fees::lemma_fee_split_conserves;
use crate::orders::bid_native_weight;
use crate::orders::Bids;
use crate::orders::BuyOrder;
use crate::orders::SellOrder;
use crate::registry::NativeLedger;
use crate::registry::NftRecord;
use crate::registry::NftRegistry;
use crate::registry::TokenRegistry;
use crate::store::BuyOrders;
use crate::store::SellOrders;
use crate::u256::pow256;
use crate::u256::U256;
use crate::u512::pow512;
use crate::u512::U512;
use crate::Address;
use crate::Error;
use vstd::arithmetic::mul::lemma_mul_upper_bound;
use vstd::prelude::*;

verus! {

/// The marketplace's bookkeeping of the custodial purse: the balance it has
/// legitimately observed. Deposits are authenticated by comparing this record
/// against the purse's live balance.
pub struct DepositPurse {
    pub balance: U512,
}

impl DepositPurse {
    pub open spec fn balance_spec(self) -> nat {
        self.balance.as_nat()
    }

    pub fn init() -> (r: DepositPurse)
        ensures
            r.balance_spec() == 0,
    {
        DepositPurse { balance: U512::zero() }
    }

    /// The cached balance.
    pub fn purse_balance(&self) -> (r: U512)
        ensures
            r.as_nat() == self.balance_spec(),
    {
        self.balance
    }

    /// Refresh the cache to a freshly observed live balance.
    pub fn update_purse_balance(&mut self, balance: U512)
        ensures
            final(self).balance_spec() == balance.as_nat(),
    {
        self.balance = balance;
    }
}

/// The marketplace contract's own persistent state.
pub struct Marketplace {
    /// Fee rate in basis points over 10000; set once at construction.
    pub fee: u8,
    /// Where the fee share of every payout goes; set once at construction.
    pub fee_wallet: Address,
    /// The contract-package identity the marketplace acts under.
    pub package: u64,
    pub sell_orders: SellOrders,
    pub buy_orders: BuyOrders,
    pub deposit: DepositPurse,
    /// The reentrancy flag: `true` while a guarded operation is in flight.
    pub locked: bool,
}

impl Marketplace {
    pub open spec fn wf(self) -> bool {
        &&& self.sell_orders.wf()
        &&& self.buy_orders.wf()
    }

    /// One-time constructor state: empty stores, an idle guard, and a zeroed
    /// balance cache.
    pub fn init(fee: u8, fee_wallet: Address, package: u64) -> (r: Marketplace)
        ensures
            r.wf(),
            r.fee == fee,
            r.fee_wallet == fee_wallet,
            r.package == package,
            !r.locked,
            r.deposit.balance_spec() == 0,
            r.sell_orders.as_map() == Map::<AssetKey, SellOrder>::empty(),
            r.buy_orders.as_map() == Map::<AssetKey, Bids>::empty(),
            r.buy_orders.native_total() == 0,
    {
        Marketplace {
            fee,
            fee_wallet,
            package,
            sell_orders: SellOrders::init(),
            buy_orders: BuyOrders::init(),
            deposit: DepositPurse::init(),
            locked: false,
        }
    }
}

/// The first violated precondition of a native purchase, if any; `None` means
/// the purchase goes through. A deposit of exactly `amount` must already sit
/// in the purse on top of the bookkept balance, the order must exist with the
/// asset still in escrow, it must ask for native currency, and the amount
/// must fit the price's width and cover it.
pub open spec fn buy_native_fails(
    pre: World,
    caller: Address,
    collection: u64,
    token_id: u64,
    amount: nat,
) -> Option<Error> {
    let key = AssetKey { collection, token_id };
    if pre.market.locked {
        Some(Error::InvalidContext)
    } else if pre.purse_live() != pre.purse_cached() + amount {
        Some(Error::PermissionDenied)
    } else if !pre.sells().contains_key(key) {
        Some(Error::NotExistOrder)
    } else if pre.nft_owner(key) != Some(pre.market_address()) {
        Some(Error::FinishedOrder)
    } else if pre.sells()[key].pay_token is Some {
        Some(Error::InvalidPayToken)
    } else if amount >= pow256() {
        Some(Error::Overflow)
    } else if amount < pre.sells()[key].price.as_nat() {
        Some(Error::InsufficientBalance)
    } else if !pre.native.can_pay2(
        pre.sells()[key].creator,
        recipient_share(amount, pre.market.fee as nat),
        pre.market.fee_wallet,
        fee_share(amount, pre.market.fee as nat),
    ) {
        Some(Error::Overflow)
    } else {
        None
    }
}

/// What a completed native purchase leaves behind: the asset goes to the
/// chosen recipient, the seller and the fee wallet receive the fee split of
/// the deposited amount out of the purse, the order is removed, and the
/// bookkept purse balance is refreshed.
pub open spec fn buy_native_updates(
    pre: World,
    post: World,
    caller: Address,
    collection: u64,
    token_id: u64,
    amount: nat,
    additional_recipient: Option<Address>,
) -> bool {
    let key = AssetKey { collection, token_id };
    let seller = pre.sells()[key].creator;
    let rs = recipient_share(amount, pre.market.fee as nat);
    let fs = fee_share(amount, pre.market.fee as nat);
    let recipient = match additional_recipient {
        Some(a) => a,
        None => caller,
    };
    &&& post.sells() == pre.sells().remove(key)
    &&& post.nft.recs() == pre.nft.recs().insert(
        key,
        NftRecord { owner: recipient, approved: None },
    )
    &&& forall|a: Address|
        #![trigger post.native_balance(a)]
        post.native_balance(a) == pre.native_balance(a) + (if a == seller {
            rs
        } else {
            0
        }) + (if a == pre.market.fee_wallet {
            fs
        } else {
            0
        })
    &&& post.purse_live() + rs + fs == pre.purse_live()
    &&& post.purse_cached() == post.purse_live()
    &&& pre.same_bids(post)
    &&& pre.same_tokens(post)
    &&& post.market.fee == pre.market.fee
    &&& post.market.fee_wallet == pre.market.fee_wallet
    &&& post.market.package == pre.market.package
    &&& post.market.locked == pre.market.locked
    &&& post.now == pre.now
}

/// The first violated precondition of placing a native-currency bid, if any.
/// The bidder must not already have a bid on this asset, and must first have
/// deposited exactly `amount` into the purse.
pub open spec fn create_buy_native_fails(
    pre: World,
    caller: Address,
    collection: u64,
    token_id: u64,
    amount: nat,
) -> Option<Error> {
    let key = AssetKey { collection, token_id };
    if pre.market.locked {
        Some(Error::InvalidContext)
    } else if pre.purse_live() != pre.purse_cached() + amount {
        Some(Error::PermissionDenied)
    } else if pre.bids_at(key).contains_key(caller) {
        Some(Error::AlreadyExistOrder)
    } else if amount >= pow256() {
        Some(Error::Overflow)
    } else {
        None
    }
}

/// What placing a native bid leaves behind: the bid is recorded, stamped with
/// the current time; the deposited funds stay in the purse and the bookkept
/// balance is refreshed to cover them.
pub open spec fn create_buy_native_updates(
    pre: World,
    post: World,
    caller: Address,
    collection: u64,
    token_id: u64,
    amount: nat,
    additional_recipient: Option<Address>,
) -> bool {
    let key = AssetKey { collection, token_id };
    &&& post.bids_at(key).contains_key(caller)
    &&& post.bids_at(key)[caller].pay_token == None::<u64>
    &&& post.bids_at(key)[caller].price.as_nat() == amount
    &&& post.bids_at(key)[caller].start_time == pre.now
    &&& post.bids_at(key)[caller].additional_recipient == additional_recipient
    &&& post.bids_at(key) == pre.bids_at(key).insert(caller, post.bids_at(key)[caller])
    &&& forall|k2: AssetKey| k2 != key ==> #[trigger] post.bids_at(k2) == pre.bids_at(k2)
    &&& pre.same_sells(post)
    &&& pre.same_nft(post)
    &&& pre.same_tokens(post)
    &&& pre.same_native(post)
    &&& post.purse_cached() == pre.purse_live()
    &&& pre.same_config(post)
}

/// The first violated precondition of placing a fungible-token bid, if any.
/// The bidder must not already have a bid, and the marketplace must be able
/// to pull the full amount into escrow on the bidder's allowance.
pub open spec fn create_buy_fails(
    pre: World,
    caller: Address,
    collection: u64,
    token_id: u64,
    pay_token: u64,
    amount: nat,
) -> Option<Error> {
    let key = AssetKey { collection, token_id };
    if pre.market.locked {
        Some(Error::InvalidContext)
    } else if pre.bids_at(key).contains_key(caller) {
        Some(Error::AlreadyExistOrder)
    } else if pre.token_allowance(pay_token, caller, pre.market_address()) < amount {
        Some(Error::InsufficientBalance)
    } else if pre.token_balance(pay_token, caller) < amount {
        Some(Error::InsufficientBalance)
    } else if !(caller == pre.market_address() || pre.token_balance(pay_token, pre.market_address())
        + amount < pow256()) {
        Some(Error::Overflow)
    } else {
        None
    }
}

/// What placing a fungible bid leaves behind: the bid is recorded and the
/// offered funds move from the bidder into marketplace escrow at once, drawn
/// on the bidder's allowance.
pub open spec fn create_buy_updates(
    pre: World,
    post: World,
    caller: Address,
    collection: u64,
    token_id: u64,
    pay_token: u64,
    amount: U256,
    additional_recipient: Option<Address>,
) -> bool {
    let key = AssetKey { collection, token_id };
    let bid = BuyOrder {
        pay_token: Some(pay_token),
        price: amount,
        start_time: pre.now,
        additional_recipient,
    };
    &&& post.bids_at(key) == pre.bids_at(key).insert(caller, bid)
    &&& forall|k2: AssetKey| k2 != key ==> #[trigger] post.bids_at(k2) == pre.bids_at(k2)
    &&& forall|t: u64, h: Address|
        #![trigger post.token_balance(t, h)]
        post.token_balance(t, h) + (if t == pay_token && h == caller {
            amount.as_nat()
        } else {
            0
        }) == pre.token_balance(t, h) + (if t == pay_token && h == pre.market_address() {
            amount.as_nat()
        } else {
            0
        })
    &&& forall|t: u64, o: Address, sp: Address|
        #![trigger post.token_allowance(t, o, sp)]
        post.token_allowance(t, o, sp) + (if t == pay_token && o == caller && sp
            == pre.market_address() {
            amount.as_nat()
        } else {
            0
        }) == pre.token_allowance(t, o, sp)
    &&& pre.same_sells(post)
    &&& pre.same_nft(post)
    &&& pre.same_native(post)
    &&& pre.same_cached(post)
    &&& pre.same_config(post)
}

/// The first violated precondition of cancelling a bid, if any: the bid must
/// exist, and the escrowed funds must be refundable in their original asset.
pub open spec fn cancel_buy_fails(
    pre: World,
    caller: Address,
    collection: u64,
    token_id: u64,
) -> Option<Error> {
    let key = AssetKey { collection, token_id };
    if pre.market.locked {
        Some(Error::InvalidContext)
    } else if !pre.bids_at(key).contains_key(caller) {
        Some(Error::NotExistOrder)
    } else {
        let bid = pre.bids_at(key)[caller];
        let price = bid.price.as_nat();
        match bid.pay_token {
            Some(tok) => {
                if pre.token_balance(tok, pre.market_address()) < price {
                    Some(Error::InsufficientBalance)
                } else if !(pre.market_address() == caller || pre.token_balance(tok, caller)
                    + price < pow256()) {
                    Some(Error::Overflow)
                } else {
                    None
                }
            },
            None => {
                if pre.purse_live() < price {
                    Some(Error::InsufficientBalance)
                } else if pre.native_balance(caller) + price >= pow512() {
                    Some(Error::Overflow)
                } else {
                    None
                }
            },
        }
    }
}

/// What cancelling a bid leaves behind: the bid is removed and exactly its
/// escrowed amount returns to the bidder in its original asset.
pub open spec fn cancel_buy_updates(
    pre: World,
    post: World,
    caller: Address,
    collection: u64,
    token_id: u64,
) -> bool {
    let key = AssetKey { collection, token_id };
    let bid = pre.bids_at(key)[caller];
    let price = bid.price.as_nat();
    &&& post.bids_at(key) == pre.bids_at(key).remove(caller)
    &&& forall|k2: AssetKey| k2 != key ==> #[trigger] post.bids_at(k2) == pre.bids_at(k2)
    &&& pre.same_sells(post)
    &&& pre.same_nft(post)
    &&& pre.same_config(post)
    &&& match bid.pay_token {
        Some(tok) => {
            &&& forall|t: u64, h: Address|
                #![trigger post.token_balance(t, h)]
                post.token_balance(t, h) + (if t == tok && h == pre.market_address() {
                    price
                } else {
                    0
                }) == pre.token_balance(t, h) + (if t == tok && h == caller {
                    price
                } else {
                    0
                })
            &&& forall|t: u64, o: Address, sp: Address| #[trigger] post.token_allowance(t, o, sp)
                == pre.token_allowance(t, o, sp)
            &&& pre.same_native(post)
            &&& pre.same_cached(post)
        },
        None => {
            &&& pre.same_tokens(post)
            &&& forall|a: Address|
                #![trigger post.native_balance(a)]
                post.native_balance(a) == pre.native_balance(a) + (if a == caller {
                    price
                } else {
                    0
                })
            &&& post.purse_live() + price == pre.purse_live()
            &&& post.purse_cached() == post.purse_live()
        },
    }
}

/// The first violated precondition of accepting a bid, if any: the caller
/// must own the asset and have approved the marketplace, the bid must exist,
/// and its escrowed funds must be payable as a fee split.
pub open spec fn accept_buy_fails(
    pre: World,
    caller: Address,
    collection: u64,
    token_id: u64,
    bidder: Address,
) -> Option<Error> {
    let key = AssetKey { collection, token_id };
    if pre.market.locked {
        Some(Error::InvalidContext)
    } else if pre.nft_owner(key) is None {
        Some(Error::NotExistToken)
    } else if pre.nft_owner(key) != Some(caller) {
        Some(Error::NotTokenOwner)
    } else if pre.nft_approved(key) != Some(pre.market_address()) {
        Some(Error::RequireApprove)
    } else if !pre.bids_at(key).contains_key(bidder) {
        Some(Error::NotExistOrder)
    } else {
        let bid = pre.bids_at(key)[bidder];
        let price = bid.price.as_nat();
        let to = match bid.additional_recipient {
            Some(a) => a,
            None => caller,
        };
        let rs = recipient_share(price, pre.market.fee as nat);
        let fs = fee_share(price, pre.market.fee as nat);
        match bid.pay_token {
            Some(tok) => {
                if price * (10000 - pre.market.fee) >= pow256() {
                    Some(Error::Overflow)
                } else if !pre.tokens.can_move2(
                    tok,
                    pre.market_address(),
                    to,
                    rs,
                    pre.market.fee_wallet,
                    fs,
                ) {
                    Some(
                        pre.tokens.move2_err(
                            tok,
                            pre.market_address(),
                            to,
                            rs,
                            pre.market.fee_wallet,
                            fs,
                        ),
                    )
                } else {
                    None
                }
            },
            None => {
                if pre.purse_live() < rs + fs {
                    Some(Error::InsufficientBalance)
                } else if !pre.native.can_pay2(to, rs, pre.market.fee_wallet, fs) {
                    Some(Error::Overflow)
                } else {
                    None
                }
            },
        }
    }
}

/// What accepting a bid leaves behind: the asset moves from the seller to the
/// bidder, the bid's escrowed amount pays out as a fee split to the bid's
/// recipient override (else the seller) and the fee wallet, and the bid is
/// removed.
pub open spec fn accept_buy_updates(
    pre: World,
    post: World,
    caller: Address,
    collection: u64,
    token_id: u64,
    bidder: Address,
) -> bool {
    let key = AssetKey { collection, token_id };
    let bid = pre.bids_at(key)[bidder];
    let price = bid.price.as_nat();
    let to = match bid.additional_recipient {
        Some(a) => a,
        None => caller,
    };
    let rs = recipient_share(price, pre.market.fee as nat);
    let fs = fee_share(price, pre.market.fee as nat);
    &&& post.bids_at(key) == pre.bids_at(key).remove(bidder)
    &&& forall|k2: AssetKey| k2 != key ==> #[trigger] post.bids_at(k2) == pre.bids_at(k2)
    &&& post.nft.recs() == pre.nft.recs().insert(
        key,
        NftRecord { owner: bidder, approved: None },
    )
    &&& pre.same_sells(post)
    &&& pre.same_config(post)
    &&& match bid.pay_token {
        Some(tok) => {
            &&& forall|t: u64, h: Address|
                #![trigger post.token_balance(t, h)]
                post.token_balance(t, h) + (if t == tok && h == pre.market_address() {
                    rs + fs
                } else {
                    0
                }) == pre.token_balance(t, h) + (if t == tok && h == to {
                    rs
                } else {
                    0
                }) + (if t == tok && h == pre.market.fee_wallet {
                    fs
                } else {
                    0
                })
            &&& forall|t: u64, o: Address, sp: Address| #[trigger] post.token_allowance(t, o, sp)
                == pre.token_allowance(t, o, sp)
            &&& pre.same_native(post)
            &&& pre.same_cached(post)
        },
        None => {
            &&& pre.same_tokens(post)
            &&& forall|a: Address|
                #![trigger post.native_balance(a)]
                post.native_balance(a) == pre.native_balance(a) + (if a == to {
                    rs
                } else {
                    0
                }) + (if a == pre.market.fee_wallet {
                    fs
                } else {
                    0
                })
            &&& post.purse_live() + rs + fs == pre.purse_live()
            &&& post.purse_cached() == post.purse_live()
        },
    }
}

/// The first violated precondition of a fungible-token purchase, if any. The
/// order must exist with the asset still in escrow and ask for a token, and
/// the marketplace must be able to pull the fee-split shares of `amount` from
/// the buyer's allowance.
pub open spec fn buy_fungible_fails(
    pre: World,
    caller: Address,
    collection: u64,
    token_id: u64,
    amount: nat,
) -> Option<Error> {
    let key = AssetKey { collection, token_id };
    if !pre.sells().contains_key(key) {
        Some(Error::NotExistOrder)
    } else if pre.nft_owner(key) != Some(pre.market_address()) {
        Some(Error::FinishedOrder)
    } else if pre.sells()[key].pay_token is None {
        Some(Error::InvalidPayToken)
    } else if pre.token_allowance(
        pre.sells()[key].pay_token.unwrap(),
        caller,
        pre.market_address(),
    ) < amount {
        Some(Error::InsufficientBalance)
    } else if amount * (10000 - pre.market.fee) >= pow256() {
        Some(Error::Overflow)
    } else {
        let tok = pre.sells()[key].pay_token.unwrap();
        let rs = recipient_share(amount, pre.market.fee as nat);
        let fs = fee_share(amount, pre.market.fee as nat);
        let seller = pre.sells()[key].creator;
        if !pre.tokens.can_move2(tok, caller, seller, rs, pre.market.fee_wallet, fs) {
            Some(pre.tokens.move2_err(tok, caller, seller, rs, pre.market.fee_wallet, fs))
        } else {
            None
        }
    }
}

/// What a completed fungible purchase leaves behind: the asset goes to the
/// chosen recipient, the fee-split shares of `amount` move from the buyer to
/// the seller and the fee wallet on the buyer's allowance, and the order is
/// removed.
pub open spec fn buy_fungible_updates(
    pre: World,
    post: World,
    caller: Address,
    collection: u64,
    token_id: u64,
    amount: nat,
    additional_recipient: Option<Address>,
) -> bool {
    let key = AssetKey { collection, token_id };
    let tok = pre.sells()[key].pay_token.unwrap();
    let seller = pre.sells()[key].creator;
    let rs = recipient_share(amount, pre.market.fee as nat);
    let fs = fee_share(amount, pre.market.fee as nat);
    let recipient = match additional_recipient {
        Some(a) => a,
        None => caller,
    };
    &&& post.sells() == pre.sells().remove(key)
    &&& post.nft.recs() == pre.nft.recs().insert(
        key,
        NftRecord { owner: recipient, approved: None },
    )
    &&& forall|t: u64, h: Address|
        #![trigger post.token_balance(t, h)]
        post.token_balance(t, h) + (if t == tok && h == caller {
            rs + fs
        } else {
            0
        }) == pre.token_balance(t, h) + (if t == tok && h == seller {
            rs
        } else {
            0
        }) + (if t == tok && h == pre.market.fee_wallet {
            fs
        } else {
            0
        })
    &&& forall|t: u64, o: Address, sp: Address|
        #![trigger post.token_allowance(t, o, sp)]
        post.token_allowance(t, o, sp) + (if t == tok && o == caller && sp == pre.market_address() {
            rs + fs
        } else {
            0
        }) == pre.token_allowance(t, o, sp)
    &&& pre.same_bids(post)
    &&& pre.same_native(post)
    &&& pre.same_cached(post)
    &&& pre.same_config(post)
}

/// The marketplace together with the ledgers it trades against. Every
/// lifecycle operation is a method on this struct.
pub struct World {
    pub market: Marketplace,
    pub nft: NftRegistry,
    pub tokens: TokenRegistry,
    pub native: NativeLedger,
    /// The current ledger time, stamped onto new bids.
    pub now: u64,
}

impl World {
    pub open spec fn wf(self) -> bool {
        &&& self.market.wf()
        &&& self.nft.wf()
        &&& self.tokens.wf()
        &&& self.native.wf()
    }

    /// The identity the marketplace holds escrowed assets under.
    pub open spec fn market_address(self) -> Address {
        Address::Contract(self.market.package)
    }

    pub open spec fn sells(self) -> Map<AssetKey, SellOrder> {
        self.market.sell_orders.as_map()
    }

    pub open spec fn bids_at(self, key: AssetKey) -> Map<Address, BuyOrder> {
        self.market.buy_orders.bids_at(key)
    }

    pub open spec fn nft_owner(self, key: AssetKey) -> Option<Address> {
        self.nft.owner_of_spec(key)
    }

    pub open spec fn nft_approved(self, key: AssetKey) -> Option<Address> {
        self.nft.approved_spec(key)
    }

    pub open spec fn token_balance(self, token: u64, holder: Address) -> nat {
        self.tokens.balance_of_spec(token, holder)
    }

    pub open spec fn token_allowance(self, token: u64, owner: Address, spender: Address) -> nat {
        self.tokens.allowance_spec(token, owner, spender)
    }

    pub open spec fn native_balance(self, holder: Address) -> nat {
        self.native.balance_spec(holder)
    }

    pub open spec fn purse_live(self) -> nat {
        self.native.purse_live()
    }

    pub open spec fn purse_cached(self) -> nat {
        self.market.deposit.balance_spec()
    }


    /// The native units every standing native bid holds in escrow together.
    pub open spec fn native_escrow(self) -> nat {
        self.market.buy_orders.native_total()
    }

    /// The escrow accounting is solvent: the purse's live balance covers the
    /// bookkept balance, which in turn covers every standing native bid's
    /// escrowed amount. Every operation preserves this, so a refund or an
    /// acceptance can never find the purse short of a bid's funds.
    pub open spec fn solvent(self) -> bool {
        &&& self.purse_live() >= self.purse_cached()
        &&& self.purse_cached() >= self.native_escrow()
    }

    pub open spec fn same_sells(self, post: World) -> bool {
        post.sells() == self.sells()
    }

    pub open spec fn same_bids(self, post: World) -> bool {
        forall|k: AssetKey| #[trigger] post.bids_at(k) == self.bids_at(k)
    }

    pub open spec fn same_nft(self, post: World) -> bool {
        post.nft.recs() == self.nft.recs()
    }

    pub open spec fn same_tokens(self, post: World) -> bool {
        &&& self.tokens.balances_same(post.tokens)
        &&& self.tokens.allowances_same(post.tokens)
    }

    pub open spec fn same_native(self, post: World) -> bool {
        &&& self.native.accounts_same(post.native)
        &&& post.purse_live() == self.purse_live()
    }

    pub open spec fn same_cached(self, post: World) -> bool {
        post.purse_cached() == self.purse_cached()
    }

    /// The construction-time configuration, the guard flag, and the clock.
    pub open spec fn same_config(self, post: World) -> bool {
        &&& post.market.fee == self.market.fee
        &&& post.market.fee_wallet == self.market.fee_wallet
        &&& post.market.package == self.market.package
        &&& post.market.locked == self.market.locked
        &&& post.now == self.now
    }

    /// Nothing observable moved: the shape every failed operation leaves.
    pub open spec fn same_state(self, post: World) -> bool {
        &&& self.same_sells(post)
        &&& self.same_bids(post)
        &&& self.same_nft(post)
        &&& self.same_tokens(post)
        &&& self.same_native(post)
        &&& self.same_cached(post)
        &&& self.same_config(post)
    }

    /// Everything observable but the guard flag is unchanged.
    pub open spec fn same_except_guard(self, post: World) -> bool {
        &&& self.same_sells(post)
        &&& self.same_bids(post)
        &&& self.same_nft(post)
        &&& self.same_tokens(post)
        &&& self.same_native(post)
        &&& self.same_cached(post)
        &&& post.market.fee == self.market.fee
        &&& post.market.fee_wallet == self.market.fee_wallet
        &&& post.market.package == self.market.package
        &&& post.now == self.now
    }

    /// A fresh marketplace with empty ledgers, constructed once with its fee
    /// configuration and its own package identity.
    pub fn new(fee: u8, fee_wallet: Address, package: u64) -> (w: World)
        ensures
            w.wf(),
            w.solvent(),
            w.market.fee == fee,
            w.market.fee_wallet == fee_wallet,
            w.market.package == package,
            !w.market.locked,
            w.now == 0,
            w.purse_cached() == 0,
            w.purse_live() == 0,
            w.sells() == Map::<AssetKey, SellOrder>::empty(),
            forall|k: AssetKey| #[trigger] w.bids_at(k) == Map::<Address, BuyOrder>::empty(),
            w.nft.recs() == Map::<AssetKey, NftRecord>::empty(),
            forall|t: u64, h: Address| #[trigger] w.token_balance(t, h) == 0,
            forall|t: u64, o: Address, s: Address| #[trigger] w.token_allowance(t, o, s) == 0,
            forall|a: Address| #[trigger] w.native_balance(a) == 0,
    {
        World {
            market: Marketplace::init(fee, fee_wallet, package),
            nft: NftRegistry::new(),
            tokens: TokenRegistry::new(),
            native: NativeLedger::new(),
            now: 0,
        }
    }

    /// Advance the ledger clock; new bids are stamped with it.
    pub fn set_block_time(&mut self, now: u64)
        ensures
            final(self).now == now,
            final(self).wf() == old(self).wf(),
            old(self).same_sells(*final(self)),
            old(self).same_bids(*final(self)),
            old(self).same_nft(*final(self)),
            old(self).same_tokens(*final(self)),
            old(self).same_native(*final(self)),
            old(self).same_cached(*final(self)),
            final(self).market.locked == old(self).market.locked,
            final(self).market.fee == old(self).market.fee,
            final(self).market.fee_wallet == old(self).market.fee_wallet,
            final(self).market.package == old(self).market.package,
    {
        self.now = now;
    }

    /// Take the reentrancy guard on entering a guarded operation. A nested
    /// call finds it taken and fails deterministically.
    pub fn set_reentrancy(&mut self) -> (r: Result<(), Error>)
        ensures
            old(self).same_except_guard(*final(self)),
            final(self).wf() == old(self).wf(),
            old(self).market.locked ==> r == Err::<(), Error>(Error::InvalidContext)
                && final(self).market.locked,
            !old(self).market.locked ==> r == Ok::<(), Error>(()) && final(self).market.locked,
    {
        if self.market.locked {
            Err(Error::InvalidContext)
        } else {
            self.market.locked = true;
            Ok(())
        }
    }

    /// Release the reentrancy guard after a guarded operation completes.
    pub fn clear_reentrancy(&mut self)
        ensures
            !final(self).market.locked,
            old(self).same_except_guard(*final(self)),
            final(self).wf() == old(self).wf(),
    {
        self.market.locked = false;
    }

    /// The configured fee rate, in basis points over 10000.
    pub fn fee(&self) -> (r: u8)
        ensures
            r == self.market.fee,
    {
        self.market.fee
    }

    /// The configured fee recipient.
    pub fn fee_wallet(&self) -> (r: Address)
        ensures
            r == self.market.fee_wallet,
    {
        self.market.fee_wallet
    }

    /// The marketplace's bookkept purse balance.
    pub fn stored_purse_balance(&self) -> (r: U512)
        ensures
            r.as_nat() == self.purse_cached(),
    {
        self.market.deposit.purse_balance()
    }

    /// Listing needs the registry to report the creator as the asset's owner
    /// and the marketplace identity as its approved spender.
    pub open spec fn listing_approved(self, caller: Address, key: AssetKey) -> bool {
        &&& self.nft_owner(key) == Some(caller)
        &&& self.nft_approved(key) == Some(self.market_address())
    }

    /// List an asset for sale: the marketplace pulls it into escrow and
    /// records the sell order. Succeeds exactly when the caller owns the
    /// asset and has approved the marketplace as its spender; otherwise fails
    /// with `RequireApprove` and changes nothing. In particular an asset that
    /// already sits in escrow under a live listing cannot be listed again by
    /// anyone else, so no active order is ever silently overwritten.
    pub fn create_sell_order(
        &mut self,
        caller: Address,
        start_time: u64,
        collection: u64,
        token_id: u64,
        pay_token: Option<u64>,
        price: U256,
    ) -> (r: Result<(), Error>)
        requires
            old(self).wf(),
        ensures
            final(self).wf(),
            !old(self).listing_approved(caller, (AssetKey { collection, token_id })) ==> r
                == Err::<(), Error>(Error::RequireApprove) && old(self).same_state(*final(self)),
            old(self).listing_approved(caller, (AssetKey { collection, token_id })) ==> r == Ok::<
                (),
                Error,
            >(()) && final(self).sells() == old(self).sells().insert(
                (AssetKey { collection, token_id }),
                (SellOrder { creator: caller, collection, token_id, pay_token, price, start_time }),
            ) && final(self).nft.recs() == old(self).nft.recs().insert(
                (AssetKey { collection, token_id }),
                (NftRecord { owner: old(self).market_address(), approved: None }),
            ) && old(self).same_bids(*final(self)) && old(self).same_tokens(*final(self)) && old(
                self,
            ).same_native(*final(self)) && old(self).same_cached(*final(self)) && old(
                self,
            ).same_config(*final(self)),
            old(self).nft_owner((AssetKey { collection, token_id })) != Some(
                old(self).market_address(),
            ) ==> ((r is Ok) <==> final(self).nft_owner((AssetKey { collection, token_id }))
                == Some(old(self).market_address())),
            (r is Ok) ==> final(self).nft_owner((AssetKey { collection, token_id })) == Some(
                old(self).market_address(),
            ),
            old(self).nft_owner((AssetKey { collection, token_id })) == Some(
                old(self).market_address(),
            ) && caller != old(self).market_address() ==> r == Err::<(), Error>(
                Error::RequireApprove,
            ) && old(self).same_state(*final(self)),
            old(self).solvent() ==> final(self).solvent(),
    {
        let market_addr = Address::Contract(self.market.package);
        let approved = self.nft.get_approved(caller, collection, token_id);
        let approved_to_market = match approved {
            Some(a) => a == market_addr,
            None => false,
        };
        if !approved_to_market {
            return Err(Error::RequireApprove);
        }
        let moved = self.nft.transfer_from(market_addr, caller, market_addr, collection, token_id);
        proof {
            assert(moved == Ok::<(), Error>(()));
        }
        self.market.sell_orders.set(
            collection,
            token_id,
            SellOrder { creator: caller, collection, token_id, pay_token, price, start_time },
        );
        Ok(())
    }

    /// Cancel a listing: only its creator may do so, and only while the
    /// marketplace still holds the asset in escrow; the asset then returns to
    /// the creator and the order is removed. A stale order whose asset
    /// already left escrow fails with `FinishedOrder`.
    pub fn cancel_sell_order(&mut self, caller: Address, collection: u64, token_id: u64) -> (r:
        Result<(), Error>)
        requires
            old(self).wf(),
        ensures
            final(self).wf(),
            !old(self).sells().contains_key((AssetKey { collection, token_id })) ==> r == Err::<
                (),
                Error,
            >(Error::NotExistOrder) && old(self).same_state(*final(self)),
            old(self).sells().contains_key((AssetKey { collection, token_id })) && old(
                self,
            ).sells()[(AssetKey { collection, token_id })].creator != caller ==> r == Err::<
                (),
                Error,
            >(Error::NotOrderCreator) && old(self).same_state(*final(self)),
            old(self).sells().contains_key((AssetKey { collection, token_id })) && old(
                self,
            ).sells()[(AssetKey { collection, token_id })].creator == caller && old(
                self,
            ).nft_owner((AssetKey { collection, token_id })) != Some(old(self).market_address())
                ==> r == Err::<(), Error>(Error::FinishedOrder) && old(self).same_state(
                *final(self),
            ),
            old(self).sells().contains_key((AssetKey { collection, token_id })) && old(
                self,
            ).sells()[(AssetKey { collection, token_id })].creator == caller && old(
                self,
            ).nft_owner((AssetKey { collection, token_id })) == Some(old(self).market_address())
                ==> r == Ok::<(), Error>(()) && final(self).sells() == old(self).sells().remove(
                (AssetKey { collection, token_id }),
            ) && final(self).nft.recs() == old(self).nft.recs().insert(
                (AssetKey { collection, token_id }),
                (NftRecord { owner: caller, approved: None }),
            ) && old(self).same_bids(*final(self)) && old(self).same_tokens(*final(self)) && old(
                self,
            ).same_native(*final(self)) && old(self).same_cached(*final(self)) && old(
                self,
            ).same_config(*final(self)),
            old(self).solvent() ==> final(self).solvent(),
    {
        let order = match self.market.sell_orders.get(collection, token_id) {
            Some(o) => o,
            None => {
                return Err(Error::NotExistOrder);
            },
        };
        if order.creator != caller {
            return Err(Error::NotOrderCreator);
        }
        let market_addr = Address::Contract(self.market.package);
        let owner = self.nft.owner_of(collection, token_id);
        let active = match owner {
            Some(o) => o == market_addr,
            None => false,
        };
        if !active {
            return Err(Error::FinishedOrder);
        }
        let moved = self.nft.transfer(market_addr, caller, collection, token_id);
        proof {
            assert(moved == Ok::<(), Error>(()));
        }
        self.market.sell_orders.remove(collection, token_id);
        Ok(())
    }

    /// Pay an amount out of the purse to a recipient with the fee deducted to
    /// the fee wallet, and refresh the bookkept balance. The purse must cover
    /// the amount and the split must fit the width; a credit that would not
    /// fit fails with `Overflow` before anything moves.
    fn transfer_cspr_with_fee(&mut self, account: Address, amount: U512) -> (r: Result<(), Error>)
        requires
            old(self).wf(),
            old(self).purse_live() >= amount.as_nat(),
            amount.as_nat() * (10000 - old(self).market.fee) < pow512(),
        ensures
            final(self).wf(),
            final(self).native_escrow() == old(self).native_escrow(),
            !old(self).native.can_pay2(
                account,
                recipient_share(amount.as_nat(), old(self).market.fee as nat),
                old(self).market.fee_wallet,
                fee_share(amount.as_nat(), old(self).market.fee as nat),
            ) ==> r == Err::<(), Error>(Error::Overflow) && old(self).same_state(*final(self)),
            old(self).native.can_pay2(
                account,
                recipient_share(amount.as_nat(), old(self).market.fee as nat),
                old(self).market.fee_wallet,
                fee_share(amount.as_nat(), old(self).market.fee as nat),
            ) ==> r == Ok::<(), Error>(()) && (forall|a: Address|
                #![trigger final(self).native_balance(a)]
                final(self).native_balance(a) == old(self).native_balance(a) + (if a == account {
                    recipient_share(amount.as_nat(), old(self).market.fee as nat)
                } else {
                    0
                }) + (if a == old(self).market.fee_wallet {
                    fee_share(amount.as_nat(), old(self).market.fee as nat)
                } else {
                    0
                })) && final(self).purse_live() + recipient_share(
                amount.as_nat(),
                old(self).market.fee as nat,
            ) + fee_share(amount.as_nat(), old(self).market.fee as nat) == old(self).purse_live()
                && final(self).purse_cached() == final(self).purse_live() && old(self).same_sells(
                *final(self),
            ) && old(self).same_bids(*final(self)) && old(self).same_nft(*final(self)) && old(
                self,
            ).same_tokens(*final(self)) && old(self).same_config(*final(self)),
    {
        let fee = self.market.fee;
        let shares = match split_u512(amount, fee) {
            Ok(p) => p,
            Err(e) => {
                proof {
                    assert(false);
                }
                return Err(e);
            },
        };
        let fw = self.market.fee_wallet;
        let paid = self.native.pay_two(account, shares.0, fw, shares.1);
        match paid {
            Ok(_) => {
                self.update_purse_balance();
                Ok(())
            },
            Err(e) => Err(e),
        }
    }

    /// Buy a listed asset with native currency. The buyer must first have
    /// deposited exactly `amount` into the purse; the asset goes to
    /// `additional_recipient` if given, else to the caller, and the seller is
    /// paid the fee split. Any amount above the price is part of the sale:
    /// no change is returned.
    #[verifier::spinoff_prover]
    #[verifier::rlimit(100)]
    pub fn buy_sell_order_cspr(
        &mut self,
        caller: Address,
        collection: u64,
        token_id: u64,
        amount: U512,
        additional_recipient: Option<Address>,
    ) -> (r: Result<(), Error>)
        requires
            old(self).wf(),
        ensures
            final(self).wf(),
            match buy_native_fails(*old(self), caller, collection, token_id, amount.as_nat()) {
                Some(e) => r == Err::<(), Error>(e) && old(self).same_state(*final(self)),
                None => r == Ok::<(), Error>(()) && buy_native_updates(
                    *old(self),
                    *final(self),
                    caller,
                    collection,
                    token_id,
                    amount.as_nat(),
                    additional_recipient,
                ),
            },
            old(self).market.locked ==> r == Err::<(), Error>(Error::InvalidContext) && old(
                self,
            ).same_state(*final(self)),
            old(self).solvent() ==> final(self).solvent(),
    {
        if self.market.locked {
            return Err(Error::InvalidContext);
        }
        let live = self.native.purse_balance();
        let cached = self.market.deposit.purse_balance();
        let expected = match cached.checked_add(amount) {
            Some(v) => v,
            None => {
                return Err(Error::PermissionDenied);
            },
        };
        if !(expected.le(&live) && live.le(&expected)) {
            return Err(Error::PermissionDenied);
        }
        let order = match self.market.sell_orders.get(collection, token_id) {
            Some(o) => o,
            None => {
                return Err(Error::NotExistOrder);
            },
        };
        let market_addr = Address::Contract(self.market.package);
        let active = match self.nft.owner_of(collection, token_id) {
            Some(o) => o == market_addr,
            None => false,
        };
        if !active {
            return Err(Error::FinishedOrder);
        }
        if order.pay_token.is_some() {
            return Err(Error::InvalidPayToken);
        }
        let amount_u256 = match amount.to_u256() {
            Some(v) => v,
            None => {
                return Err(Error::Overflow);
            },
        };
        if amount_u256.lt(&order.price) {
            return Err(Error::InsufficientBalance);
        }
        proof {
            lemma_mul_upper_bound(
                amount.as_nat() as int,
                pow256() as int - 1,
                (10000 - self.market.fee) as int,
                10000,
            );
        }
        let paid = self.transfer_cspr_with_fee(order.creator, amount);
        match paid {
            Ok(_) => {},
            Err(e) => {
                return Err(e);
            },
        }
        let ghost mid = *self;
        let recipient = match additional_recipient {
            Some(a) => a,
            None => caller,
        };
        let moved = self.nft.transfer_from(
            market_addr,
            market_addr,
            recipient,
            collection,
            token_id,
        );
        proof {
            assert(moved == Ok::<(), Error>(()));
        }
        self.market.sell_orders.remove(collection, token_id);
        proof {
            let rs = recipient_share(amount.as_nat(), old(self).market.fee as nat);
            let fs = fee_share(amount.as_nat(), old(self).market.fee as nat);
            assert forall|a: Address|
                #![trigger self.native_balance(a)]
                self.native_balance(a) == old(self).native_balance(a) + (if a == order.creator {
                    rs
                } else {
                    0
                }) + (if a == old(self).market.fee_wallet {
                    fs
                } else {
                    0
                }) by {
                assert(mid.native_balance(a) == old(self).native_balance(a) + (if a
                    == order.creator {
                    rs
                } else {
                    0
                }) + (if a == old(self).market.fee_wallet {
                    fs
                } else {
                    0
                }));
            }
        }
        proof {
            let pre = *old(self);
            let post = *self;
            assert forall|k: AssetKey| #[trigger] post.bids_at(k) == pre.bids_at(k) by {
                assert(mid.bids_at(k) == pre.bids_at(k));
            }
            lemma_fee_split_conserves(amount.as_nat(), pre.market.fee as nat);
        }
        Ok(())
    }

    /// Place a standing bid in native currency. The offered funds must
    /// already sit in the purse as a fresh deposit of exactly `amount`; they
    /// stay escrowed there until the bid is cancelled or accepted. One bid
    /// per bidder per asset: a second one fails with `AlreadyExistOrder`.
    pub fn create_buy_order_cspr(
        &mut self,
        caller: Address,
        collection: u64,
        token_id: u64,
        additional_recipient: Option<Address>,
        amount: U512,
    ) -> (r: Result<(), Error>)
        requires
            old(self).wf(),
        ensures
            final(self).wf(),
            match create_buy_native_fails(
                *old(self),
                caller,
                collection,
                token_id,
                amount.as_nat(),
            ) {
                Some(e) => r == Err::<(), Error>(e) && old(self).same_state(*final(self)),
                None => r == Ok::<(), Error>(()) && create_buy_native_updates(
                    *old(self),
                    *final(self),
                    caller,
                    collection,
                    token_id,
                    amount.as_nat(),
                    additional_recipient,
                ),
            },
            old(self).market.locked ==> r == Err::<(), Error>(Error::InvalidContext) && old(
                self,
            ).same_state(*final(self)),
            old(self).bids_at((AssetKey { collection, token_id })).contains_key(caller) && !old(
                self,
            ).market.locked && old(self).purse_live() == old(self).purse_cached()
                + amount.as_nat() ==> r == Err::<(), Error>(Error::AlreadyExistOrder),
            old(self).solvent() ==> final(self).solvent(),
    {
        if self.market.locked {
            return Err(Error::InvalidContext);
        }
        let live = self.native.purse_balance();
        let cached = self.market.deposit.purse_balance();
        let expected = match cached.checked_add(amount) {
            Some(v) => v,
            None => {
                return Err(Error::PermissionDenied);
            },
        };
        if !(expected.le(&live) && live.le(&expected)) {
            return Err(Error::PermissionDenied);
        }
        let mut bids = self.market.buy_orders.get(collection, token_id);
        let ghost bids0 = bids;
        if bids.contains_key(caller) {
            return Err(Error::AlreadyExistOrder);
        }
        let price = match amount.to_u256() {
            Some(v) => v,
            None => {
                return Err(Error::Overflow);
            },
        };
        bids.insert(
            caller,
            BuyOrder { pay_token: None, price, start_time: self.now, additional_recipient },
        );
        let ghost bids1 = bids;
        self.market.buy_orders.set(collection, token_id, bids);
        let ghost mid = *self;
        self.update_purse_balance();
        proof {
            let key = AssetKey { collection, token_id };
            assert forall|k2: AssetKey| k2 != key implies #[trigger] self.bids_at(k2) == old(
                self,
            ).bids_at(k2) by {
                assert(mid.bids_at(k2) == old(self).bids_at(k2));
            }
            assert(self.bids_at(key) == mid.bids_at(key));
            assert(bids1.native_total() == bids0.native_total() + amount.as_nat());
            assert(self.native_escrow() == old(self).native_escrow() + amount.as_nat());
        }
        Ok(())
    }

    /// Place a standing bid in a fungible token. The full offered amount is
    /// pulled into marketplace escrow immediately, on the bidder's allowance;
    /// it returns on cancellation. One bid per bidder per asset.
    pub fn create_buy_order(
        &mut self,
        caller: Address,
        collection: u64,
        token_id: u64,
        additional_recipient: Option<Address>,
        pay_token: u64,
        amount: U256,
    ) -> (r: Result<(), Error>)
        requires
            old(self).wf(),
        ensures
            final(self).wf(),
            match create_buy_fails(*old(self), caller, collection, token_id, pay_token, amount.as_nat()) {
                Some(e) => r == Err::<(), Error>(e) && old(self).same_state(*final(self)),
                None => r == Ok::<(), Error>(()) && create_buy_updates(
                    *old(self),
                    *final(self),
                    caller,
                    collection,
                    token_id,
                    pay_token,
                    amount,
                    additional_recipient,
                ),
            },
            old(self).market.locked ==> r == Err::<(), Error>(Error::InvalidContext) && old(
                self,
            ).same_state(*final(self)),
            old(self).bids_at((AssetKey { collection, token_id })).contains_key(caller) && !old(
                self,
            ).market.locked ==> r == Err::<(), Error>(Error::AlreadyExistOrder),
            old(self).solvent() ==> final(self).solvent(),
    {
        if self.market.locked {
            return Err(Error::InvalidContext);
        }
        let mut bids = self.market.buy_orders.get(collection, token_id);
        let ghost bids0 = bids;
        if bids.contains_key(caller) {
            return Err(Error::AlreadyExistOrder);
        }
        let market_addr = Address::Contract(self.market.package);
        let allowed = self.tokens.allowance(pay_token, caller, market_addr);
        if allowed.lt(&amount) {
            return Err(Error::InsufficientBalance);
        }
        let pulled = self.tokens.transfer_from(pay_token, market_addr, caller, market_addr, amount);
        match pulled {
            Ok(_) => {},
            Err(e) => {
                return Err(e);
            },
        }
        bids.insert(
            caller,
            BuyOrder {
                pay_token: Some(pay_token),
                price: amount,
                start_time: self.now,
                additional_recipient,
            },
        );
        let ghost bids1 = bids;
        self.market.buy_orders.set(collection, token_id, bids);
        proof {
            assert(bids1.native_total() == bids0.native_total());
            assert(self.native_escrow() == old(self).native_escrow());
        }
        Ok(())
    }

    /// Cancel a standing bid: only an existing bid of the caller's can be
    /// cancelled, and exactly the escrowed amount returns to the caller in
    /// the asset the bid was placed in.
    #[verifier::spinoff_prover]
    #[verifier::rlimit(100)]
    pub fn cancel_buy_order(&mut self, caller: Address, collection: u64, token_id: u64) -> (r:
        Result<(), Error>)
        requires
            old(self).wf(),
        ensures
            final(self).wf(),
            match cancel_buy_fails(*old(self), caller, collection, token_id) {
                Some(e) => r == Err::<(), Error>(e) && old(self).same_state(*final(self)),
                None => r == Ok::<(), Error>(()) && cancel_buy_updates(
                    *old(self),
                    *final(self),
                    caller,
                    collection,
                    token_id,
                ),
            },
            old(self).market.locked ==> r == Err::<(), Error>(Error::InvalidContext) && old(
                self,
            ).same_state(*final(self)),
            old(self).solvent() ==> final(self).solvent(),
    {
        if self.market.locked {
            return Err(Error::InvalidContext);
        }
        let mut bids = self.market.buy_orders.get(collection, token_id);
        let ghost bids0 = bids;
        let bid = match bids.get(caller) {
            Some(b) => b,
            None => {
                return Err(Error::NotExistOrder);
            },
        };
        let market_addr = Address::Contract(self.market.package);
        match bid.pay_token {
            Some(tok) => {
                let refunded = self.tokens.transfer(tok, market_addr, caller, bid.price);
                match refunded {
                    Ok(_) => {},
                    Err(e) => {
                        return Err(e);
                    },
                }
            },
            None => {
                let price512 = U512::from_u256(bid.price);
                let paid = self.native.pay_from_purse(caller, price512);
                match paid {
                    Ok(_) => {},
                    Err(e) => {
                        return Err(e);
                    },
                }
                self.update_purse_balance();
            },
        }
        let ghost mid = *self;
        bids.remove(caller);
        let ghost bids1 = bids;
        self.market.buy_orders.set(collection, token_id, bids);
        proof {
            let key = AssetKey { collection, token_id };
            assert forall|k2: AssetKey| k2 != key implies #[trigger] self.bids_at(k2) == old(
                self,
            ).bids_at(k2) by {
                assert(mid.bids_at(k2) == old(self).bids_at(k2));
            }
            assert(bids1.native_total() + bid_native_weight(bid) == bids0.native_total());
            assert(mid.market.buy_orders.native_contribution(key) == old(
                self,
            ).market.buy_orders.native_contribution(key));
            assert(self.native_escrow() + bid_native_weight(bid) == old(self).native_escrow());
            match old(self).bids_at(key)[caller].pay_token {
                Some(tok) => {
                    let price = old(self).bids_at(key)[caller].price.as_nat();
                    assert forall|t: u64, h: Address|
                        #![trigger self.token_balance(t, h)]
                        self.token_balance(t, h) + (if t == tok && h == old(
                            self,
                        ).market_address() {
                            price
                        } else {
                            0
                        }) == old(self).token_balance(t, h) + (if t == tok && h == caller {
                            price
                        } else {
                            0
                        }) by {
                        assert(mid.token_balance(t, h) + (if t == tok && h == old(
                            self,
                        ).market_address() {
                            price
                        } else {
                            0
                        }) == old(self).token_balance(t, h) + (if t == tok && h == caller {
                            price
                        } else {
                            0
                        }));
                    }
                    assert forall|t: u64, o: Address, sp: Address| #[trigger] self.token_allowance(
                        t,
                        o,
                        sp,
                    ) == old(self).token_allowance(t, o, sp) by {
                        assert(mid.token_allowance(t, o, sp) == old(self).token_allowance(
                            t,
                            o,
                            sp,
                        ));
                    }
                },
                None => {
                    let price = old(self).bids_at(key)[caller].price.as_nat();
                    assert forall|a: Address|
                        #![trigger self.native_balance(a)]
                        self.native_balance(a) == old(self).native_balance(a) + (if a == caller {
                            price
                        } else {
                            0
                        }) by {
                        assert(mid.native_balance(a) == old(self).native_balance(a) + (if a
                            == caller {
                            price
                        } else {
                            0
                        }));
                    }
                },
            }
        }
        Ok(())
    }

    /// Accept a standing bid on an asset the caller owns. The asset must be
    /// approved to the marketplace; it moves to the bidder, while the bid's
    /// escrowed amount pays out fee-split to the bid's recipient override if
    /// present, else to the caller.
    #[verifier::spinoff_prover]
    #[verifier::rlimit(100)]
    pub fn accept_buy_order(
        &mut self,
        caller: Address,
        collection: u64,
        token_id: u64,
        bidder: Address,
    ) -> (r: Result<(), Error>)
        requires
            old(self).wf(),
        ensures
            final(self).wf(),
            match accept_buy_fails(*old(self), caller, collection, token_id, bidder) {
                Some(e) => r == Err::<(), Error>(e) && old(self).same_state(*final(self)),
                None => r == Ok::<(), Error>(()) && accept_buy_updates(
                    *old(self),
                    *final(self),
                    caller,
                    collection,
                    token_id,
                    bidder,
                ),
            },
            old(self).market.locked ==> r == Err::<(), Error>(Error::InvalidContext) && old(
                self,
            ).same_state(*final(self)),
            !old(self).market.locked && old(self).nft_owner((AssetKey { collection, token_id }))
                is Some && old(self).nft_owner((AssetKey { collection, token_id })) != Some(caller)
                ==> r == Err::<(), Error>(Error::NotTokenOwner) && old(self).same_state(
                *final(self),
            ),
            old(self).solvent() ==> final(self).solvent(),
    {
        if self.market.locked {
            return Err(Error::InvalidContext);
        }
        let market_addr = Address::Contract(self.market.package);
        let token_owner = match self.nft.owner_of(collection, token_id) {
            Some(o) => o,
            None => {
                return Err(Error::NotExistToken);
            },
        };
        if token_owner != caller {
            return Err(Error::NotTokenOwner);
        }
        let approved_to_market = match self.nft.get_approved(caller, collection, token_id) {
            Some(a) => a == market_addr,
            None => false,
        };
        if !approved_to_market {
            return Err(Error::RequireApprove);
        }
        let mut bids = self.market.buy_orders.get(collection, token_id);
        let ghost bids0 = bids;
        let bid = match bids.get(bidder) {
            Some(b) => b,
            None => {
                return Err(Error::NotExistOrder);
            },
        };
        let to = match bid.additional_recipient {
            Some(a) => a,
            None => caller,
        };
        let fee = self.market.fee;
        let fw = self.market.fee_wallet;
        match bid.pay_token {
            Some(tok) => {
                let shares = match split_u256(bid.price, fee) {
                    Ok(p) => p,
                    Err(e) => {
                        return Err(e);
                    },
                };
                let moved = self.tokens.transfer_two(
                    tok,
                    None,
                    market_addr,
                    to,
                    shares.0,
                    fw,
                    shares.1,
                );
                match moved {
                    Ok(_) => {},
                    Err(e) => {
                        return Err(e);
                    },
                }
            },
            None => {
                let price512 = U512::from_u256(bid.price);
                proof {
                    crate::u256::lemma_u256_bound(bid.price);
                    lemma_mul_upper_bound(
                        price512.as_nat() as int,
                        pow256() as int - 1,
                        (10000 - fee) as int,
                        10000,
                    );
                }
                let shares = match split_u512(price512, fee) {
                    Ok(p) => p,
                    Err(e) => {
                        proof {
                            assert(false);
                        }
                        return Err(e);
                    },
                };
                let total = match shares.0.checked_add(shares.1) {
                    Some(v) => v,
                    None => {
                        proof {
                            crate::u512::lemma_u512_bound(price512);
                            assert(false);
                        }
                        return Err(Error::Overflow);
                    },
                };
                let purse = self.native.purse_balance();
                if purse.lt(&total) {
                    return Err(Error::InsufficientBalance);
                }
                let paid = self.native.pay_two(to, shares.0, fw, shares.1);
                match paid {
                    Ok(_) => {},
                    Err(e) => {
                        return Err(e);
                    },
                }
                self.update_purse_balance();
            },
        }
        let ghost mid = *self;
        let moved_nft = self.nft.transfer_from(market_addr, caller, bidder, collection, token_id);
        proof {
            assert(moved_nft == Ok::<(), Error>(()));
        }
        bids.remove(bidder);
        let ghost bids1 = bids;
        self.market.buy_orders.set(collection, token_id, bids);
        proof {
            let key = AssetKey { collection, token_id };
            let bid0 = old(self).bids_at(key)[bidder];
            let price = bid0.price.as_nat();
            let rs = recipient_share(price, old(self).market.fee as nat);
            let fs = fee_share(price, old(self).market.fee as nat);
            lemma_fee_split_conserves(price, old(self).market.fee as nat);
            assert forall|k2: AssetKey| k2 != key implies #[trigger] self.bids_at(k2) == old(
                self,
            ).bids_at(k2) by {
                assert(mid.bids_at(k2) == old(self).bids_at(k2));
            }
            assert(bids1.native_total() + bid_native_weight(bid) == bids0.native_total());
            assert(mid.market.buy_orders.native_contribution(key) == old(
                self,
            ).market.buy_orders.native_contribution(key));
            assert(self.native_escrow() + bid_native_weight(bid) == old(self).native_escrow());
            match bid0.pay_token {
                Some(tok) => {
                    assert forall|t: u64, h: Address|
                        #![trigger self.token_balance(t, h)]
                        self.token_balance(t, h) + (if t == tok && h == old(
                            self,
                        ).market_address() {
                            rs + fs
                        } else {
                            0
                        }) == old(self).token_balance(t, h) + (if t == tok && h == to {
                            rs
                        } else {
                            0
                        }) + (if t == tok && h == old(self).market.fee_wallet {
                            fs
                        } else {
                            0
                        }) by {
                        assert(mid.token_balance(t, h) + (if t == tok && h == old(
                            self,
                        ).market_address() {
                            rs + fs
                        } else {
                            0
                        }) == old(self).token_balance(t, h) + (if t == tok && h == to {
                            rs
                        } else {
                            0
                        }) + (if t == tok && h == old(self).market.fee_wallet {
                            fs
                        } else {
                            0
                        }));
                    }
                    assert forall|t: u64, o: Address, sp: Address| #[trigger] self.token_allowance(
                        t,
                        o,
                        sp,
                    ) == old(self).token_allowance(t, o, sp) by {
                        assert(mid.token_allowance(t, o, sp) == old(self).token_allowance(
                            t,
                            o,
                            sp,
                        ));
                    }
                },
                None => {
                    assert forall|a: Address|
                        #![trigger self.native_balance(a)]
                        self.native_balance(a) == old(self).native_balance(a) + (if a == to {
                            rs
                        } else {
                            0
                        }) + (if a == old(self).market.fee_wallet {
                            fs
                        } else {
                            0
                        }) by {
                        assert(mid.native_balance(a) == old(self).native_balance(a) + (if a == to {
                            rs
                        } else {
                            0
                        }) + (if a == old(self).market.fee_wallet {
                            fs
                        } else {
                            0
                        }));
                    }
                },
            }
        }
        Ok(())
    }

    /// Buy a listed asset with the fungible token the order asks for. The
    /// fee-split shares of `amount` are pulled from the buyer's allowance and
    /// paid to the seller and the fee wallet; the asset goes to
    /// `additional_recipient` if given, else to the caller.
    #[verifier::spinoff_prover]
    #[verifier::rlimit(100)]
    pub fn buy_sell_order(
        &mut self,
        caller: Address,
        collection: u64,
        token_id: u64,
        amount: U256,
        additional_recipient: Option<Address>,
    ) -> (r: Result<(), Error>)
        requires
            old(self).wf(),
        ensures
            final(self).wf(),
            match buy_fungible_fails(*old(self), caller, collection, token_id, amount.as_nat()) {
                Some(e) => r == Err::<(), Error>(e) && old(self).same_state(*final(self)),
                None => r == Ok::<(), Error>(()) && buy_fungible_updates(
                    *old(self),
                    *final(self),
                    caller,
                    collection,
                    token_id,
                    amount.as_nat(),
                    additional_recipient,
                ),
            },
            old(self).solvent() ==> final(self).solvent(),
    {
        let order = match self.market.sell_orders.get(collection, token_id) {
            Some(o) => o,
            None => {
                return Err(Error::NotExistOrder);
            },
        };
        let market_addr = Address::Contract(self.market.package);
        let active = match self.nft.owner_of(collection, token_id) {
            Some(o) => o == market_addr,
            None => false,
        };
        if !active {
            return Err(Error::FinishedOrder);
        }
        let tok = match order.pay_token {
            Some(t) => t,
            None => {
                return Err(Error::InvalidPayToken);
            },
        };
        let allowed = self.tokens.allowance(tok, caller, market_addr);
        if allowed.lt(&amount) {
            return Err(Error::InsufficientBalance);
        }
        let fee = self.market.fee;
        let shares = match split_u256(amount, fee) {
            Ok(p) => p,
            Err(e) => {
                return Err(e);
            },
        };
        let fw = self.market.fee_wallet;
        let moved = self.tokens.transfer_two(
            tok,
            Some(market_addr),
            caller,
            order.creator,
            shares.0,
            fw,
            shares.1,
        );
        match moved {
            Ok(_) => {},
            Err(e) => {
                return Err(e);
            },
        }
        let ghost mid = *self;
        let recipient = match additional_recipient {
            Some(a) => a,
            None => caller,
        };
        let moved_nft = self.nft.transfer(market_addr, recipient, collection, token_id);
        proof {
            assert(moved_nft == Ok::<(), Error>(()));
        }
        self.market.sell_orders.remove(collection, token_id);
        proof {
            let key = AssetKey { collection, token_id };
            let rs = recipient_share(amount.as_nat(), old(self).market.fee as nat);
            let fs = fee_share(amount.as_nat(), old(self).market.fee as nat);
            assert forall|t: u64, h: Address|
                #![trigger self.token_balance(t, h)]
                self.token_balance(t, h) + (if t == tok && h == caller {
                    rs + fs
                } else {
                    0
                }) == old(self).token_balance(t, h) + (if t == tok && h == order.creator {
                    rs
                } else {
                    0
                }) + (if t == tok && h == old(self).market.fee_wallet {
                    fs
                } else {
                    0
                }) by {
                assert(mid.token_balance(t, h) + (if t == tok && h == caller {
                    rs + fs
                } else {
                    0
                }) == old(self).token_balance(t, h) + (if t == tok && h == order.creator {
                    rs
                } else {
                    0
                }) + (if t == tok && h == old(self).market.fee_wallet {
                    fs
                } else {
                    0
                }));
            }
            assert forall|t: u64, o: Address, sp: Address|
                #![trigger self.token_allowance(t, o, sp)]
                self.token_allowance(t, o, sp) + (if t == tok && o == caller && sp == old(
                    self,
                ).market_address() {
                    rs + fs
                } else {
                    0
                }) == old(self).token_allowance(t, o, sp) by {
                assert(mid.token_allowance(t, o, sp) + (if t == tok && o == caller && sp == old(
                    self,
                ).market_address() {
                    rs + fs
                } else {
                    0
                }) == old(self).token_allowance(t, o, sp));
            }
            assert forall|k2: AssetKey| #[trigger] self.bids_at(k2) == old(self).bids_at(k2) by {
                assert(mid.bids_at(k2) == old(self).bids_at(k2));
            }
        }
        Ok(())
    }

    /// Refresh the bookkept purse balance to the live one.
    fn update_purse_balance(&mut self)
        requires
            old(self).wf(),
        ensures
            final(self).wf(),
            final(self).purse_cached() == old(self).purse_live(),
            final(self).native_escrow() == old(self).native_escrow(),
            final(self).market.buy_orders.as_map() == old(self).market.buy_orders.as_map(),
            old(self).same_sells(*final(self)),
            old(self).same_bids(*final(self)),
            old(self).same_nft(*final(self)),
            old(self).same_tokens(*final(self)),
            old(self).same_native(*final(self)),
            old(self).same_config(*final(self)),
    {
        let live = self.native.purse_balance();
        self.market.deposit.update_purse_balance(live);
    }
}

} // verus!
