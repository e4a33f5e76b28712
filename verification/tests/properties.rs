use royalty_nft::ClassConfig;
use royalty_nft::Error;
use royalty_nft::Event;
use royalty_nft::Marketplace;

/// A fresh marketplace with a minimum balance of 1 and three accounts
/// endowed with 500 each.
fn three_accounts() -> Marketplace {
    let mut m = Marketplace::new(1);
    assert!(m.deposit(100, 500));
    assert!(m.deposit(200, 500));
    assert!(m.deposit(300, 500));
    m
}

#[test]
fn mint_gating_ignores_funds() {
    let mut m = three_accounts();
    assert_eq!(m.create_nft_class(100, vec![0], 0, 10, 10), Ok(0));
    assert_eq!(m.set_mintable(100, 0, false), Ok(()));
    // 200 could easily afford the mint price, yet minting is refused
    assert_eq!(m.mint_nft_token(200, 0, vec![0], 0), Err(Error::CantMint));
    assert_eq!(m.balance(200), 500);
    assert_eq!(m.token_owner(0, 0), None);
    // Minting into an unknown class is a different failure
    assert_eq!(m.mint_nft_token(200, 7, vec![0], 0), Err(Error::InvalidClassId));
}

#[test]
fn transfer_pays_exact_royalty() {
    let mut m = three_accounts();
    assert_eq!(m.create_nft_class(100, vec![0], 0, 10, 7), Ok(0));
    assert_eq!(m.mint_nft_token(200, 0, vec![0], 0), Ok(0));
    // After the mint: 100 holds 510, 200 holds 490
    assert_eq!(m.nft_transfer(200, 300, 0, 0), Ok(()));
    // The payer lost exactly the royalty, the class owner gained exactly it
    assert_eq!(m.balance(200), 490 - 7);
    assert_eq!(m.balance(100), 510 + 7);
    assert_eq!(m.balance(300), 500);
    assert_eq!(m.token_owner(0, 0), Some(300));
}

#[test]
fn resale_settles_all_three_parties() {
    // Class by A (100) with mint_price 10 and royalty 10, as amounts.
    // B (200) mints, paying 10 to A; B lists at 20; C (300) buys:
    // C pays 20 to B, then B pays royalty 10 to A.
    let mut m = three_accounts();
    assert_eq!(m.create_nft_class(100, vec![0], 0, 10, 10), Ok(0));
    assert_eq!(m.mint_nft_token(200, 0, vec![0], 0), Ok(0));
    assert_eq!(m.create_sale(200, 0, 0, 20), Ok(()));
    assert_eq!(m.buy(300, 0, 0), Ok(()));
    // A net +20 (mint fee plus royalty), C net -20; B paid 10 at mint,
    // gained 20 from the sale and paid 10 royalty, so B nets 0
    assert_eq!(m.balance(200), 500);
    assert_eq!(m.balance(100), 520);
    assert_eq!(m.balance(300), 480);
    assert_eq!(m.token_owner(0, 0), Some(300));
    assert_eq!(m.sales(0, 0), None);
}

#[test]
fn unlist_then_buy_fails() {
    // B unlists the token; a buy by C then fails, and unlisting again
    // fails the same way: absence is idempotent.
    let mut m = three_accounts();
    assert_eq!(m.create_nft_class(100, vec![0], 0, 10, 10), Ok(0));
    assert_eq!(m.mint_nft_token(200, 0, vec![0], 0), Ok(0));
    assert_eq!(m.create_sale(200, 0, 0, 20), Ok(()));
    assert_eq!(m.delete_sale(200, 0, 0), Ok(()));
    assert_eq!(m.buy(300, 0, 0), Err(Error::TokenNotForSale));
    assert_eq!(m.delete_sale(200, 0, 0), Err(Error::TokenNotForSale));
    assert_eq!(m.balance(200), 490);
    assert_eq!(m.balance(300), 500);
}

#[test]
fn failed_buy_changes_nothing() {
    let mut m = three_accounts();
    assert!(m.deposit(400, 25));
    assert_eq!(m.create_nft_class(100, vec![0], 0, 10, 10), Ok(0));
    assert_eq!(m.mint_nft_token(200, 0, vec![0], 0), Ok(0));
    assert_eq!(m.create_sale(200, 0, 0, 30), Ok(()));
    // 400 holds 25 < 30 + 1: the buy is rejected and nothing moved
    assert_eq!(m.buy(400, 0, 0), Err(Error::InsufficientFunds));
    assert_eq!(m.balance(400), 25);
    assert_eq!(m.balance(200), 490);
    assert_eq!(m.token_owner(0, 0), Some(200));
    assert_eq!(m.sales(0, 0), Some(30));
    // A buy by the owner is rejected the same way, with nothing moved
    assert_eq!(m.buy(200, 0, 0), Err(Error::BuyerSellerSame));
    assert_eq!(m.balance(200), 490);
    assert_eq!(m.token_owner(0, 0), Some(200));
    assert_eq!(m.sales(0, 0), Some(30));
}

#[test]
fn failed_transfer_changes_nothing() {
    let mut m = three_accounts();
    assert!(m.deposit(400, 5));
    assert_eq!(m.create_nft_class(100, vec![0], 0, 0, 10), Ok(0));
    assert_eq!(m.mint_nft_token(400, 0, vec![0], 0), Ok(0));
    // 400 holds 5 < 10 + 1: the royalty cannot be paid, so ownership stays
    assert_eq!(m.nft_transfer(400, 300, 0, 0), Err(Error::InsufficientFunds));
    assert_eq!(m.token_owner(0, 0), Some(400));
    assert_eq!(m.balance(400), 5);
    assert_eq!(m.balance(100), 500);
}

#[test]
fn payer_keeps_minimum_balance() {
    let mut m = Marketplace::new(1);
    assert!(m.deposit(1, 21));
    assert!(m.deposit(2, 21));
    assert!(m.deposit(3, 100));
    assert_eq!(m.create_nft_class(3, vec![0], 0, 0, 0), Ok(0));
    assert_eq!(m.mint_nft_token(3, 0, vec![0], 0), Ok(0));
    assert_eq!(m.create_sale(3, 0, 0, 20), Ok(()));
    assert_eq!(m.mint_nft_token(3, 0, vec![0], 0), Ok(1));
    assert_eq!(m.create_sale(3, 0, 1, 21), Ok(()));
    // 21 = 20 + 1: account 1 can pay 20 and keep the minimum
    assert_eq!(m.buy(1, 0, 0), Ok(()));
    assert_eq!(m.balance(1), 1);
    // 21 < 21 + 1: account 2 cannot pay 21 without dropping below it
    assert_eq!(m.buy(2, 0, 1), Err(Error::InsufficientFunds));
    assert_eq!(m.balance(2), 21);
}

#[test]
fn royalty_to_selling_class_owner_nets_zero() {
    // The seller is the class owner: the royalty is a self-payment, so the
    // seller's net change is the sale price alone.
    let mut m = three_accounts();
    assert_eq!(m.create_nft_class(100, vec![0], 0, 10, 10), Ok(0));
    assert_eq!(m.mint_nft_token(100, 0, vec![0], 0), Ok(0));
    assert_eq!(m.balance(100), 500);
    assert_eq!(m.create_sale(100, 0, 0, 20), Ok(()));
    assert_eq!(m.buy(200, 0, 0), Ok(()));
    assert_eq!(m.balance(100), 520);
    assert_eq!(m.balance(200), 480);
}

#[test]
fn relisting_overwrites_price() {
    let mut m = three_accounts();
    assert_eq!(m.create_nft_class(100, vec![0], 0, 10, 10), Ok(0));
    assert_eq!(m.mint_nft_token(200, 0, vec![0], 0), Ok(0));
    assert_eq!(m.create_sale(200, 0, 0, 20), Ok(()));
    assert_eq!(m.sales(0, 0), Some(20));
    assert_eq!(m.create_sale(200, 0, 0, 35), Ok(()));
    assert_eq!(m.sales(0, 0), Some(35));
    // A non-owner can neither list nor relist
    assert_eq!(m.create_sale(300, 0, 0, 1), Err(Error::TokenNotOwned));
    assert_eq!(m.sales(0, 0), Some(35));
}

#[test]
fn plain_transfer_leaves_listing_in_place() {
    // A plain transfer does not clear a listing: the sale book keeps the
    // row until the owner unlists it or a buy consumes it.
    let mut m = three_accounts();
    assert_eq!(m.create_nft_class(100, vec![0], 0, 10, 5), Ok(0));
    assert_eq!(m.mint_nft_token(200, 0, vec![0], 0), Ok(0));
    assert_eq!(m.create_sale(200, 0, 0, 20), Ok(()));
    assert_eq!(m.nft_transfer(200, 300, 0, 0), Ok(()));
    assert_eq!(m.sales(0, 0), Some(20));
    // The listing now names the new owner as seller: the old owner can buy
    assert_eq!(m.buy(200, 0, 0), Ok(()));
    assert_eq!(m.token_owner(0, 0), Some(200));
}

#[test]
fn creation_records_owner_and_minimum() {
    let mut m = three_accounts();
    assert_eq!(m.min_balance(), 1);
    assert_eq!(m.class_owner(0), None);
    assert_eq!(m.create_nft_class(100, vec![0], 0, 10, 10), Ok(0));
    assert_eq!(m.class_owner(0), Some(100));
    assert_eq!(m.total_issuance(), 1500);
}

#[test]
fn unconfigured_class_rejects_every_setter() {
    let mut m = three_accounts();
    assert_eq!(m.set_mintable(100, 3, true), Err(Error::InvalidClassId));
    assert_eq!(m.set_price(100, 3, 5), Err(Error::InvalidClassId));
    assert_eq!(m.set_royalty(100, 3, 5), Err(Error::InvalidClassId));
    assert_eq!(m.info(3), None);
}

#[test]
fn deposit_fails_past_total_capacity() {
    let mut m = Marketplace::new(0);
    assert!(m.deposit(1, u64::MAX));
    assert!(!m.deposit(2, 1));
    assert_eq!(m.balance(1), u64::MAX);
    assert_eq!(m.balance(2), 0);
    assert_eq!(m.total_issuance(), u64::MAX);
}

#[test]
fn each_operation_emits_its_events() {
    let mut m = Marketplace::new(1);
    assert!(m.deposit(100, 500));
    assert!(m.deposit(200, 500));
    assert_eq!(m.create_nft_class(100, vec![], 0, 5, 3), Ok(0));
    assert_eq!(m.mint_nft_token(200, 0, vec![], 0), Ok(0));
    assert_eq!(m.create_sale(200, 0, 0, 8), Ok(()));
    assert_eq!(m.buy(100, 0, 0), Ok(()));
    assert_eq!(m.nft_transfer(100, 200, 0, 0), Ok(()));
    assert_eq!(m.create_sale(200, 0, 0, 9), Ok(()));
    assert_eq!(m.delete_sale(200, 0, 0), Ok(()));
    let ev = m.events();
    assert_eq!(ev.len(), 9);
    assert_eq!(ev[0], Event::ClassCreated(100, 0));
    assert_eq!(ev[1], Event::TokenMinted(200, 0));
    assert_eq!(ev[2], Event::SaleCreated(0, 0));
    assert_eq!(ev[3], Event::RoyaltySent(200, 3));
    assert_eq!(ev[4], Event::SaleCompleted(100, 0, 0));
    assert_eq!(ev[5], Event::RoyaltySent(100, 3));
    assert_eq!(ev[6], Event::TokenTransferred(100, 200, 0, 0));
    assert_eq!(ev[7], Event::SaleCreated(0, 0));
    assert_eq!(ev[8], Event::SaleDeleted(0, 0));
}

#[test]
fn configuration_survives_failed_operations() {
    let mut m = three_accounts();
    assert_eq!(m.create_nft_class(100, vec![0], 0, 10, 10), Ok(0));
    let before = m.info(0);
    assert_eq!(m.set_price(200, 0, 99), Err(Error::InvalidPermission));
    assert_eq!(m.mint_nft_token(200, 9, vec![0], 0), Err(Error::InvalidClassId));
    assert_eq!(m.info(0), before);
    assert_eq!(
        before,
        Some(ClassConfig { mintable: true, mint_price: 10, royalty_rate: 10 })
    );
}
