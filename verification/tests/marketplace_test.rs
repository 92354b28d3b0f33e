use kunft_marketplace::fees::split_u256;
use kunft_marketplace::marketplace::World;
use kunft_marketplace::u256::U256;
use kunft_marketplace::u512::U512;
use kunft_marketplace::Address;
use kunft_marketplace::Error;

const MARKET_PACKAGE: u64 = 99;
const KUNFT: u64 = 10;
const USDT: u64 = 20;

fn owner() -> Address {
    Address::Account(1)
}

fn market_address() -> Address {
    Address::Contract(MARKET_PACKAGE)
}

/// A standard deployment: fee 250 basis points, the deployer as fee wallet,
/// an NFT collection, and a fungible token with 10_000 * 10^9 units minted to
/// the deployer.
fn deploy() -> World {
    let mut w = World::new(250u8, owner(), MARKET_PACKAGE);
    w.tokens
        .mint(USDT, owner(), U256::from_u64(10_000u64 * 1_000_000_000))
        .unwrap();
    w
}

#[test]
fn should_deploy() {
    let _ = deploy();
}

#[test]
fn should_create_sell_order_and_buy_cspr() {
    let mut w = deploy();
    let user = Address::Account(2);
    let token_id = 0u64;
    w.nft.mint(KUNFT, token_id, user);

    w.nft.approve(user, KUNFT, token_id, market_address()).unwrap();

    let price = U256::from_u64(1);
    w.create_sell_order(user, 0u64, KUNFT, token_id, None, price).unwrap();

    // buy nft
    let buyer = Address::Account(3);
    let price_u512 = U512::from_u64(1);
    w.native.fund(buyer, price_u512).unwrap();
    w.native.deposit_to_purse(buyer, price_u512).unwrap();
    w.buy_sell_order_cspr(buyer, KUNFT, token_id, price_u512, None).unwrap();

    let nft_owner = w.nft.owner_of(KUNFT, token_id).unwrap();
    assert_eq!(nft_owner, buyer);
}

#[test]
fn should_create_sell_order_and_buy() {
    let mut w = deploy();
    let user = Address::Account(2);
    let token_id = 0u64;
    w.nft.mint(KUNFT, token_id, user);

    w.nft.approve(user, KUNFT, token_id, market_address()).unwrap();

    let price = U256::from_u64(1);
    w.create_sell_order(user, 0u64, KUNFT, token_id, None, price).unwrap();
}

#[test]
fn should_create_sell_order_and_cancel() {
    let mut w = deploy();
    let user = Address::Account(2);
    let token_id = 0u64;
    w.nft.mint(KUNFT, token_id, user);

    w.nft.approve(user, KUNFT, token_id, market_address()).unwrap();

    let price = U256::from_u64(1);
    w.create_sell_order(user, 0u64, KUNFT, token_id, None, price).unwrap();

    let mut token_owner = w.nft.owner_of(KUNFT, token_id).unwrap();
    assert_eq!(token_owner, market_address());

    w.cancel_sell_order(user, KUNFT, token_id).unwrap();
    token_owner = w.nft.owner_of(KUNFT, token_id).unwrap();
    assert_eq!(token_owner, user);
}

#[test]
fn should_create_buy_order_and_cancel() {
    let mut w = deploy();
    let ali = Address::Account(2);
    let token_id = 0u64;
    w.nft.mint(KUNFT, token_id, ali);

    let bob = Address::Account(3);
    let offer_amount = U256::from_u64(90u64 * 1_000_000_000);
    w.tokens.transfer(USDT, owner(), bob, offer_amount).unwrap();
    w.tokens.approve(USDT, bob, market_address(), offer_amount);
    let mut bob_usdt_balance = w.tokens.balance_of(USDT, bob);
    assert_eq!(bob_usdt_balance, offer_amount);

    w.create_buy_order(bob, KUNFT, token_id, None, USDT, offer_amount).unwrap();
    bob_usdt_balance = w.tokens.balance_of(USDT, bob);
    assert_eq!(bob_usdt_balance, U256::zero());

    w.cancel_buy_order(bob, KUNFT, token_id).unwrap();
}

#[test]
fn should_create_buy_order_and_accept() {
    let mut w = deploy();
    let ali = Address::Account(2);
    let token_id = 0u64;
    w.nft.mint(KUNFT, token_id, ali);

    let bob = Address::Account(3);
    let offer_amount = U256::from_u64(90u64 * 1_000_000_000);
    w.tokens.transfer(USDT, owner(), bob, offer_amount).unwrap();
    w.tokens.approve(USDT, bob, market_address(), offer_amount);
    let mut bob_usdt_balance = w.tokens.balance_of(USDT, bob);
    assert_eq!(bob_usdt_balance, offer_amount);

    w.create_buy_order(bob, KUNFT, token_id, None, USDT, offer_amount).unwrap();
    bob_usdt_balance = w.tokens.balance_of(USDT, bob);
    assert_eq!(bob_usdt_balance, U256::zero());
    w.nft.approve(ali, KUNFT, token_id, market_address()).unwrap();
    w.accept_buy_order(ali, KUNFT, token_id, bob).unwrap();
    let token_owner = w.nft.owner_of(KUNFT, token_id).unwrap();
    assert_eq!(token_owner, bob);
}

#[test]
fn split_shares_floor_independently() {
    // 9999 * 9750 / 10000 = 9749 and 9999 * 250 / 10000 = 249: one unit of
    // dust stays behind.
    let (to_rec, to_fee) = split_u256(U256::from_u64(9999), 250).unwrap();
    assert_eq!(to_rec, U256::from_u64(9749));
    assert_eq!(to_fee, U256::from_u64(249));

    let (to_rec, to_fee) = split_u256(U256::from_u64(1), 250).unwrap();
    assert_eq!(to_rec, U256::zero());
    assert_eq!(to_fee, U256::zero());

    // fee rate zero: everything to the recipient, nothing to the fee wallet
    let (to_rec, to_fee) = split_u256(U256::from_u64(12345), 0).unwrap();
    assert_eq!(to_rec, U256::from_u64(12345));
    assert_eq!(to_fee, U256::zero());
}

#[test]
fn split_conserves_amount_exactly_on_multiples() {
    // amount * fee_rate is a multiple of 10000: the shares exhaust the amount
    let (to_rec, to_fee) = split_u256(U256::from_u64(10000), 250).unwrap();
    assert_eq!(to_rec, U256::from_u64(9750));
    assert_eq!(to_fee, U256::from_u64(250));

    // amount 40, fee 250: 40 * 250 = 10000 exactly, although 40 % 10000 != 0
    let (to_rec, to_fee) = split_u256(U256::from_u64(40), 250).unwrap();
    assert_eq!(to_rec, U256::from_u64(39));
    assert_eq!(to_fee, U256::from_u64(1));
}

#[test]
fn split_overflow_is_reported() {
    let huge = U256 { w0: 0, w1: 0, w2: 0, w3: u64::MAX };
    assert_eq!(split_u256(huge, 250), Err(Error::Overflow));
}

#[test]
fn buy_without_deposit_is_permission_denied() {
    let mut w = deploy();
    let user = Address::Account(2);
    let token_id = 0u64;
    w.nft.mint(KUNFT, token_id, user);
    w.nft.approve(user, KUNFT, token_id, market_address()).unwrap();
    w.create_sell_order(user, 0u64, KUNFT, token_id, None, U256::from_u64(1)).unwrap();

    let buyer = Address::Account(3);
    let r = w.buy_sell_order_cspr(buyer, KUNFT, token_id, U512::from_u64(1), None);
    assert_eq!(r, Err(Error::PermissionDenied));
}

#[test]
fn deposit_of_wrong_amount_is_permission_denied() {
    let mut w = deploy();
    let user = Address::Account(2);
    let token_id = 0u64;
    w.nft.mint(KUNFT, token_id, user);
    w.nft.approve(user, KUNFT, token_id, market_address()).unwrap();
    w.create_sell_order(user, 0u64, KUNFT, token_id, None, U256::from_u64(5)).unwrap();

    // deposits 3 but claims 5
    let buyer = Address::Account(3);
    w.native.fund(buyer, U512::from_u64(3)).unwrap();
    w.native.deposit_to_purse(buyer, U512::from_u64(3)).unwrap();
    let r = w.buy_sell_order_cspr(buyer, KUNFT, token_id, U512::from_u64(5), None);
    assert_eq!(r, Err(Error::PermissionDenied));
}

#[test]
fn native_bid_without_deposit_is_permission_denied() {
    let mut w = deploy();
    let bidder = Address::Account(3);
    let r = w.create_buy_order_cspr(bidder, KUNFT, 0, None, U512::from_u64(7));
    assert_eq!(r, Err(Error::PermissionDenied));
}

#[test]
fn second_bid_same_bidder_rejected() {
    let mut w = deploy();
    let bob = Address::Account(3);
    let amount = U256::from_u64(100);
    w.tokens.transfer(USDT, owner(), bob, U256::from_u64(500)).unwrap();
    w.tokens.approve(USDT, bob, market_address(), U256::from_u64(500));
    w.create_buy_order(bob, KUNFT, 0, None, USDT, amount).unwrap();
    let r = w.create_buy_order(bob, KUNFT, 0, None, USDT, amount);
    assert_eq!(r, Err(Error::AlreadyExistOrder));
}

#[test]
fn second_native_bid_same_bidder_rejected() {
    let mut w = deploy();
    let bob = Address::Account(3);
    w.native.fund(bob, U512::from_u64(20)).unwrap();
    w.native.deposit_to_purse(bob, U512::from_u64(10)).unwrap();
    w.create_buy_order_cspr(bob, KUNFT, 0, None, U512::from_u64(10)).unwrap();
    w.native.deposit_to_purse(bob, U512::from_u64(10)).unwrap();
    let r = w.create_buy_order_cspr(bob, KUNFT, 0, None, U512::from_u64(10));
    assert_eq!(r, Err(Error::AlreadyExistOrder));
}

#[test]
fn guarded_entry_points_fail_while_locked() {
    let mut w = deploy();
    let user = Address::Account(2);
    let bob = Address::Account(3);
    w.set_reentrancy().unwrap();
    // a nested attempt to take the guard again fails deterministically
    assert_eq!(w.set_reentrancy(), Err(Error::InvalidContext));
    assert_eq!(
        w.buy_sell_order_cspr(bob, KUNFT, 0, U512::from_u64(1), None),
        Err(Error::InvalidContext)
    );
    assert_eq!(
        w.create_buy_order_cspr(bob, KUNFT, 0, None, U512::from_u64(1)),
        Err(Error::InvalidContext)
    );
    assert_eq!(
        w.create_buy_order(bob, KUNFT, 0, None, USDT, U256::from_u64(1)),
        Err(Error::InvalidContext)
    );
    assert_eq!(w.cancel_buy_order(bob, KUNFT, 0), Err(Error::InvalidContext));
    assert_eq!(w.accept_buy_order(user, KUNFT, 0, bob), Err(Error::InvalidContext));
    w.clear_reentrancy();
    // once the guard is released, the same call reaches the ordinary checks
    assert_eq!(w.cancel_buy_order(bob, KUNFT, 0), Err(Error::NotExistOrder));
}

#[test]
fn relisting_escrowed_asset_never_overwrites() {
    let mut w = deploy();
    let user = Address::Account(2);
    let other = Address::Account(4);
    let token_id = 0u64;
    w.nft.mint(KUNFT, token_id, user);
    w.nft.approve(user, KUNFT, token_id, market_address()).unwrap();
    let price = U256::from_u64(7);
    w.create_sell_order(user, 0u64, KUNFT, token_id, None, price).unwrap();

    // the asset sits in escrow: nobody else can list it again
    let r = w.create_sell_order(other, 0u64, KUNFT, token_id, None, U256::from_u64(1));
    assert_eq!(r, Err(Error::RequireApprove));
    // the original creator cannot overwrite the live listing either
    let r = w.create_sell_order(user, 0u64, KUNFT, token_id, None, U256::from_u64(1));
    assert_eq!(r, Err(Error::RequireApprove));
    let order = w.market.sell_orders.get(KUNFT, token_id).unwrap();
    assert_eq!(order.price, price);
    assert_eq!(order.creator, user);
}

#[test]
fn stale_order_fails_with_finished_order() {
    let mut w = deploy();
    let user = Address::Account(2);
    let token_id = 0u64;
    w.nft.mint(KUNFT, token_id, user);
    w.nft.approve(user, KUNFT, token_id, market_address()).unwrap();
    w.create_sell_order(user, 0u64, KUNFT, token_id, None, U256::from_u64(1)).unwrap();

    // custody leaves the marketplace while the record remains
    w.nft
        .transfer_from(market_address(), market_address(), Address::Account(5), KUNFT, token_id)
        .unwrap();

    assert_eq!(w.cancel_sell_order(user, KUNFT, token_id), Err(Error::FinishedOrder));

    let buyer = Address::Account(3);
    w.native.fund(buyer, U512::from_u64(1)).unwrap();
    w.native.deposit_to_purse(buyer, U512::from_u64(1)).unwrap();
    let r = w.buy_sell_order_cspr(buyer, KUNFT, token_id, U512::from_u64(1), None);
    assert_eq!(r, Err(Error::FinishedOrder));
}

#[test]
fn native_sale_pays_fee_split_and_leaves_dust() {
    let mut w = deploy();
    let seller = Address::Account(2);
    let buyer = Address::Account(3);
    let token_id = 0u64;
    w.nft.mint(KUNFT, token_id, seller);
    w.nft.approve(seller, KUNFT, token_id, market_address()).unwrap();
    w.create_sell_order(seller, 0u64, KUNFT, token_id, None, U256::from_u64(1)).unwrap();

    w.native.fund(buyer, U512::from_u64(1)).unwrap();
    w.native.deposit_to_purse(buyer, U512::from_u64(1)).unwrap();
    w.buy_sell_order_cspr(buyer, KUNFT, token_id, U512::from_u64(1), None).unwrap();

    // asset owner becomes the buyer, the order is removed
    assert_eq!(w.nft.owner_of(KUNFT, token_id), Some(buyer));
    assert!(w.market.sell_orders.get(KUNFT, token_id).is_none());
    // split(1, 250) floors both shares to zero: the unit stays in the purse
    assert_eq!(w.native.balance_of(seller), U512::zero());
    assert_eq!(w.native.balance_of(owner()), U512::zero());
    assert_eq!(w.native.purse_balance(), U512::from_u64(1));
}

#[test]
fn native_sale_payout_amounts_are_exact() {
    let mut w = deploy();
    let seller = Address::Account(2);
    let buyer = Address::Account(3);
    let token_id = 4u64;
    w.nft.mint(KUNFT, token_id, seller);
    w.nft.approve(seller, KUNFT, token_id, market_address()).unwrap();
    w.create_sell_order(seller, 0u64, KUNFT, token_id, None, U256::from_u64(10_000)).unwrap();

    w.native.fund(buyer, U512::from_u64(10_000)).unwrap();
    w.native.deposit_to_purse(buyer, U512::from_u64(10_000)).unwrap();
    w.buy_sell_order_cspr(buyer, KUNFT, token_id, U512::from_u64(10_000), None).unwrap();

    assert_eq!(w.native.balance_of(seller), U512::from_u64(9_750));
    assert_eq!(w.native.balance_of(owner()), U512::from_u64(250));
    assert_eq!(w.native.purse_balance(), U512::zero());
    assert_eq!(w.stored_purse_balance(), U512::zero());
}

#[test]
fn overpayment_is_not_refunded() {
    let mut w = deploy();
    let seller = Address::Account(2);
    let buyer = Address::Account(3);
    let token_id = 0u64;
    w.nft.mint(KUNFT, token_id, seller);
    w.nft.approve(seller, KUNFT, token_id, market_address()).unwrap();
    w.create_sell_order(seller, 0u64, KUNFT, token_id, None, U256::from_u64(1)).unwrap();

    // pays five for a listing of one; the excess is part of the sale
    w.native.fund(buyer, U512::from_u64(5)).unwrap();
    w.native.deposit_to_purse(buyer, U512::from_u64(5)).unwrap();
    w.buy_sell_order_cspr(buyer, KUNFT, token_id, U512::from_u64(5), None).unwrap();

    assert_eq!(w.native.balance_of(buyer), U512::zero());
    // split(5, 250) = (4, 0): the seller gets four, one unit stays as dust
    assert_eq!(w.native.balance_of(seller), U512::from_u64(4));
    assert_eq!(w.native.purse_balance(), U512::from_u64(1));
}

#[test]
fn fungible_bid_escrows_and_refunds_exactly() {
    let mut w = deploy();
    let bob = Address::Account(3);
    let offer_amount = U256::from_u64(90u64 * 1_000_000_000);
    w.tokens.transfer(USDT, owner(), bob, offer_amount).unwrap();
    w.tokens.approve(USDT, bob, market_address(), offer_amount);

    w.create_buy_order(bob, KUNFT, 0, None, USDT, offer_amount).unwrap();
    assert_eq!(w.tokens.balance_of(USDT, bob), U256::zero());
    assert_eq!(w.tokens.balance_of(USDT, market_address()), offer_amount);

    w.cancel_buy_order(bob, KUNFT, 0).unwrap();
    assert_eq!(w.tokens.balance_of(USDT, bob), offer_amount);
    assert_eq!(w.tokens.balance_of(USDT, market_address()), U256::zero());
}

#[test]
fn accepted_bid_pays_fee_split_to_seller() {
    let mut w = deploy();
    let ali = Address::Account(2);
    let bob = Address::Account(3);
    let token_id = 0u64;
    w.nft.mint(KUNFT, token_id, ali);

    let offer_amount = U256::from_u64(90u64 * 1_000_000_000);
    w.tokens.transfer(USDT, owner(), bob, offer_amount).unwrap();
    w.tokens.approve(USDT, bob, market_address(), offer_amount);
    w.create_buy_order(bob, KUNFT, token_id, None, USDT, offer_amount).unwrap();

    w.nft.approve(ali, KUNFT, token_id, market_address()).unwrap();
    w.accept_buy_order(ali, KUNFT, token_id, bob).unwrap();

    // the asset moves to the bidder and the bid is gone
    assert_eq!(w.nft.owner_of(KUNFT, token_id), Some(bob));
    assert!(w.market.buy_orders.get(KUNFT, token_id).get(bob).is_none());
    // 90e9 * 9750 / 10000 to the seller, 90e9 * 250 / 10000 to the fee wallet
    assert_eq!(w.tokens.balance_of(USDT, ali), U256::from_u64(87_750_000_000));
    let owner_balance = 10_000u64 * 1_000_000_000 - 90_000_000_000 + 2_250_000_000;
    assert_eq!(w.tokens.balance_of(USDT, owner()), U256::from_u64(owner_balance));
    assert_eq!(w.tokens.balance_of(USDT, market_address()), U256::zero());
}

#[test]
fn accept_by_non_owner_rejected() {
    let mut w = deploy();
    let ali = Address::Account(2);
    let bob = Address::Account(3);
    let mallory = Address::Account(6);
    let token_id = 0u64;
    w.nft.mint(KUNFT, token_id, ali);

    let offer_amount = U256::from_u64(90u64 * 1_000_000_000);
    w.tokens.transfer(USDT, owner(), bob, offer_amount).unwrap();
    w.tokens.approve(USDT, bob, market_address(), offer_amount);
    w.create_buy_order(bob, KUNFT, token_id, None, USDT, offer_amount).unwrap();

    let r = w.accept_buy_order(mallory, KUNFT, token_id, bob);
    assert_eq!(r, Err(Error::NotTokenOwner));
}

#[test]
fn accept_on_unknown_asset_rejected() {
    let mut w = deploy();
    let r = w.accept_buy_order(Address::Account(2), KUNFT, 77, Address::Account(3));
    assert_eq!(r, Err(Error::NotExistToken));
}

#[test]
fn accept_without_approval_rejected() {
    let mut w = deploy();
    let ali = Address::Account(2);
    let bob = Address::Account(3);
    let token_id = 0u64;
    w.nft.mint(KUNFT, token_id, ali);
    let offer_amount = U256::from_u64(50);
    w.tokens.transfer(USDT, owner(), bob, offer_amount).unwrap();
    w.tokens.approve(USDT, bob, market_address(), offer_amount);
    w.create_buy_order(bob, KUNFT, token_id, None, USDT, offer_amount).unwrap();

    let r = w.accept_buy_order(ali, KUNFT, token_id, bob);
    assert_eq!(r, Err(Error::RequireApprove));
}

#[test]
fn wrong_payment_asset_rejected() {
    let mut w = deploy();
    let seller = Address::Account(2);
    let buyer = Address::Account(3);
    w.nft.mint(KUNFT, 0, seller);
    w.nft.approve(seller, KUNFT, 0, market_address()).unwrap();
    // the listing asks for a fungible token
    w.create_sell_order(seller, 0u64, KUNFT, 0, Some(USDT), U256::from_u64(10)).unwrap();

    // a native purchase of a token-priced order is rejected
    w.native.fund(buyer, U512::from_u64(10)).unwrap();
    w.native.deposit_to_purse(buyer, U512::from_u64(10)).unwrap();
    let r = w.buy_sell_order_cspr(buyer, KUNFT, 0, U512::from_u64(10), None);
    assert_eq!(r, Err(Error::InvalidPayToken));

    // and a token purchase of a native-priced order is rejected
    w.nft.mint(KUNFT, 1, seller);
    w.nft.approve(seller, KUNFT, 1, market_address()).unwrap();
    w.create_sell_order(seller, 0u64, KUNFT, 1, None, U256::from_u64(10)).unwrap();
    let r = w.buy_sell_order(buyer, KUNFT, 1, U256::from_u64(10), None);
    assert_eq!(r, Err(Error::InvalidPayToken));
}

#[test]
fn buy_below_price_rejected() {
    let mut w = deploy();
    let seller = Address::Account(2);
    let buyer = Address::Account(3);
    w.nft.mint(KUNFT, 0, seller);
    w.nft.approve(seller, KUNFT, 0, market_address()).unwrap();
    w.create_sell_order(seller, 0u64, KUNFT, 0, None, U256::from_u64(10)).unwrap();

    w.native.fund(buyer, U512::from_u64(9)).unwrap();
    w.native.deposit_to_purse(buyer, U512::from_u64(9)).unwrap();
    let r = w.buy_sell_order_cspr(buyer, KUNFT, 0, U512::from_u64(9), None);
    assert_eq!(r, Err(Error::InsufficientBalance));
}

#[test]
fn bid_with_small_allowance_rejected() {
    let mut w = deploy();
    let bob = Address::Account(3);
    w.tokens.transfer(USDT, owner(), bob, U256::from_u64(100)).unwrap();
    w.tokens.approve(USDT, bob, market_address(), U256::from_u64(99));
    let r = w.create_buy_order(bob, KUNFT, 0, None, USDT, U256::from_u64(100));
    assert_eq!(r, Err(Error::InsufficientBalance));
}

#[test]
fn cancel_by_non_creator_rejected() {
    let mut w = deploy();
    let seller = Address::Account(2);
    let other = Address::Account(4);
    w.nft.mint(KUNFT, 0, seller);
    w.nft.approve(seller, KUNFT, 0, market_address()).unwrap();
    w.create_sell_order(seller, 0u64, KUNFT, 0, None, U256::from_u64(10)).unwrap();
    assert_eq!(w.cancel_sell_order(other, KUNFT, 0), Err(Error::NotOrderCreator));
    assert_eq!(w.cancel_sell_order(seller, KUNFT, 1), Err(Error::NotExistOrder));
}

#[test]
fn allowance_shortfall_inside_registry() {
    let mut w = deploy();
    let bob = Address::Account(3);
    w.tokens.transfer(USDT, owner(), bob, U256::from_u64(10)).unwrap();
    w.tokens.approve(USDT, bob, market_address(), U256::from_u64(5));
    let r = w
        .tokens
        .transfer_from(USDT, market_address(), bob, market_address(), U256::from_u64(6));
    assert_eq!(r, Err(Error::InsufficientAllowance));
}

#[test]
fn native_bid_timestamp_and_refund() {
    let mut w = deploy();
    let bob = Address::Account(3);
    w.set_block_time(42);
    w.native.fund(bob, U512::from_u64(15)).unwrap();
    w.native.deposit_to_purse(bob, U512::from_u64(15)).unwrap();
    w.create_buy_order_cspr(bob, KUNFT, 2, None, U512::from_u64(15)).unwrap();
    let bid = w.market.buy_orders.get(KUNFT, 2).get(bob).unwrap();
    assert_eq!(bid.start_time, 42);
    assert_eq!(bid.pay_token, None);
    assert_eq!(bid.price, U256::from_u64(15));

    w.cancel_buy_order(bob, KUNFT, 2).unwrap();
    assert_eq!(w.native.balance_of(bob), U512::from_u64(15));
    assert_eq!(w.native.purse_balance(), U512::zero());
    assert!(w.market.buy_orders.get(KUNFT, 2).get(bob).is_none());
}

#[test]
fn error_codes_are_stable() {
    assert_eq!(Error::PermissionDenied.user_code(), 0);
    assert_eq!(Error::RequireApprove.user_code(), 1);
    assert_eq!(Error::Overflow.user_code(), 7);
    assert_eq!(Error::NotTokenOwner.user_code(), 12);
}

#[test]
fn wide_arithmetic_checks() {
    let max_limb = u64::MAX;
    let a = U256 { w0: max_limb, w1: max_limb, w2: max_limb, w3: max_limb };
    assert_eq!(a.checked_add(U256::from_u64(1)), None);
    assert_eq!(a.checked_sub(a), Some(U256::zero()));
    assert!(U256::from_u64(3).lt(&U256::from_u64(4)));
    assert!(!U256::from_u64(4).lt(&U256::from_u64(4)));

    let b = U512::from_u256(a);
    let doubled = b.checked_add(b).unwrap();
    assert_eq!(doubled.checked_sub(b), Some(b));
    assert_eq!(b.to_u256(), Some(a));
    assert_eq!(doubled.to_u256(), None);
}

#[test]
fn failed_listing_leaves_custody_unchanged() {
    let mut w = deploy();
    let user = Address::Account(2);
    w.nft.mint(KUNFT, 0, user);
    // no approval was given, so listing fails and the user keeps the asset
    let r = w.create_sell_order(user, 0u64, KUNFT, 0, None, U256::from_u64(1));
    assert_eq!(r, Err(Error::RequireApprove));
    assert_eq!(w.nft.owner_of(KUNFT, 0), Some(user));
    assert!(w.market.sell_orders.get(KUNFT, 0).is_none());
}

#[test]
fn fungible_purchase_pays_fee_split() {
    let mut w = deploy();
    let seller = Address::Account(2);
    let buyer = Address::Account(3);
    w.nft.mint(KUNFT, 0, seller);
    w.nft.approve(seller, KUNFT, 0, market_address()).unwrap();
    let price = U256::from_u64(10_000);
    w.create_sell_order(seller, 0u64, KUNFT, 0, Some(USDT), price).unwrap();

    w.tokens.transfer(USDT, owner(), buyer, price).unwrap();
    w.tokens.approve(USDT, buyer, market_address(), price);
    w.buy_sell_order(buyer, KUNFT, 0, price, None).unwrap();

    assert_eq!(w.nft.owner_of(KUNFT, 0), Some(buyer));
    assert!(w.market.sell_orders.get(KUNFT, 0).is_none());
    assert_eq!(w.tokens.balance_of(USDT, seller), U256::from_u64(9_750));
    assert_eq!(w.tokens.balance_of(USDT, buyer), U256::zero());
}

#[test]
fn purse_covers_every_native_bid() {
    let mut w = deploy();
    let bob = Address::Account(3);
    let carol = Address::Account(4);
    w.native.fund(bob, U512::from_u64(100)).unwrap();
    w.native.fund(carol, U512::from_u64(70)).unwrap();
    w.native.deposit_to_purse(bob, U512::from_u64(100)).unwrap();
    w.create_buy_order_cspr(bob, KUNFT, 0, None, U512::from_u64(100)).unwrap();
    w.native.deposit_to_purse(carol, U512::from_u64(70)).unwrap();
    w.create_buy_order_cspr(carol, KUNFT, 1, None, U512::from_u64(70)).unwrap();
    assert_eq!(w.native.purse_balance(), U512::from_u64(170));

    // both standing bids can always be refunded in full
    w.cancel_buy_order(carol, KUNFT, 1).unwrap();
    w.cancel_buy_order(bob, KUNFT, 0).unwrap();
    assert_eq!(w.native.balance_of(bob), U512::from_u64(100));
    assert_eq!(w.native.balance_of(carol), U512::from_u64(70));
    assert_eq!(w.native.purse_balance(), U512::zero());
}
