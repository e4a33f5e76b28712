use royalty_nft::ClassConfig;
use royalty_nft::Error;
use royalty_nft::Marketplace;

/// A fresh marketplace with a minimum balance of 1 and three accounts
/// endowed with 500 each.
fn setup() -> Marketplace {
    let mut m = Marketplace::new(1);
    assert!(m.deposit(100, 500));
    assert!(m.deposit(200, 500));
    assert!(m.deposit(300, 500));
    m
}

#[test]
fn create_nft_class() {
    let mut m = setup();
    assert_eq!(m.create_nft_class(100, vec![0], 0, 10, 10), Ok(0));
    assert_eq!(m.next_class_id(), 1);
    assert_eq!(m.create_nft_class(101, vec![0], 0, 10, 10), Ok(1));
    assert_eq!(m.next_class_id(), 2);
}

#[test]
fn mint_nft_token() {
    let mut m = setup();
    // Can mint token
    assert_eq!(m.create_nft_class(100, vec![0], 0, 10, 10), Ok(0));
    assert_eq!(m.mint_nft_token(200, 0, vec![0], 0), Ok(0));

    // Can't mint token that is too expensive
    assert_eq!(m.create_nft_class(100, vec![0], 0, 1000, 10), Ok(1));
    assert_eq!(
        m.mint_nft_token(200, 1, vec![0], 0),
        Err(Error::InsufficientFunds)
    );
}

#[test]
fn transfer_token() {
    let mut m = setup();
    assert_eq!(m.create_nft_class(100, vec![0], 0, 10, 10), Ok(0));
    assert_eq!(m.mint_nft_token(200, 0, vec![0], 0), Ok(0));

    assert_eq!(m.token_owner(0, 0), Some(200));

    // Can transfer a token they own
    assert_eq!(m.nft_transfer(200, 100, 0, 0), Ok(()));
    assert_eq!(m.token_owner(0, 0), Some(100));

    // Can't transfer a token they do not own
    assert_eq!(m.nft_transfer(200, 101, 0, 0), Err(Error::TokenNotOwned));
    assert_eq!(m.token_owner(0, 0), Some(100));

    // Can't transfer a token that does not exist
    assert_eq!(m.nft_transfer(200, 101, 0, 1), Err(Error::TokenNotFound));
    assert_eq!(m.token_owner(0, 1), None);

    // Can't transfer a token of a class that does not exist
    assert_eq!(m.nft_transfer(200, 101, 1, 0), Err(Error::TokenNotFound));
    assert_eq!(m.token_owner(1, 0), None);
}

#[test]
fn set_info() {
    let mut m = setup();
    // Info set properly on class creation
    assert_eq!(m.create_nft_class(100, vec![0], 0, 10, 10), Ok(0));
    assert_eq!(
        m.info(0),
        Some(ClassConfig { mintable: true, mint_price: 10, royalty_rate: 10 })
    );

    // Can set mintable
    assert_eq!(m.set_mintable(100, 0, false), Ok(()));
    assert_eq!(
        m.info(0),
        Some(ClassConfig { mintable: false, mint_price: 10, royalty_rate: 10 })
    );

    // Can set price
    assert_eq!(m.set_price(100, 0, 20), Ok(()));
    assert_eq!(
        m.info(0),
        Some(ClassConfig { mintable: false, mint_price: 20, royalty_rate: 10 })
    );

    // Can set royalty
    assert_eq!(m.set_royalty(100, 0, 20), Ok(()));
    assert_eq!(
        m.info(0),
        Some(ClassConfig { mintable: false, mint_price: 20, royalty_rate: 20 })
    );

    // Non class owner can't set mintable
    assert_eq!(m.set_mintable(200, 0, true), Err(Error::InvalidPermission));
    assert_eq!(
        m.info(0),
        Some(ClassConfig { mintable: false, mint_price: 20, royalty_rate: 20 })
    );

    // Non class owner can't set price
    assert_eq!(m.set_price(200, 0, 10), Err(Error::InvalidPermission));
    assert_eq!(
        m.info(0),
        Some(ClassConfig { mintable: false, mint_price: 20, royalty_rate: 20 })
    );

    // Non class owner can't set royalty
    assert_eq!(m.set_royalty(200, 0, 10), Err(Error::InvalidPermission));
    assert_eq!(
        m.info(0),
        Some(ClassConfig { mintable: false, mint_price: 20, royalty_rate: 20 })
    );

    // The royalty is a fixed amount, not a percentage: any value is accepted
    assert_eq!(m.set_royalty(100, 0, 101), Ok(()));
    assert_eq!(
        m.info(0),
        Some(ClassConfig { mintable: false, mint_price: 20, royalty_rate: 101 })
    );
}

#[test]
fn buy_nft() {
    let mut m = setup();
    let seller_balance = m.balance(100);
    let buyer_balance = m.balance(200);
    let class_creator_balance = m.balance(300);
    let minting_price = 10;
    let sales_price = 20;
    // The class's fixed royalty amount, paid on every change of hands
    let royalty_amount = 10;

    assert_eq!(
        m.create_nft_class(300, vec![0], 0, minting_price, royalty_amount),
        Ok(0)
    );

    assert_eq!(m.mint_nft_token(100, 0, vec![0], 0), Ok(0));
    assert_eq!(m.create_sale(100, 0, 0, sales_price), Ok(()));

    // Can buy
    assert_eq!(m.buy(200, 0, 0), Ok(()));

    // Balances transferred
    assert_eq!(m.balance(200), buyer_balance - sales_price);
    assert_eq!(
        m.balance(100),
        seller_balance - minting_price + sales_price - royalty_amount
    );
    assert_eq!(
        m.balance(300),
        class_creator_balance + minting_price + royalty_amount
    );

    // Token transferred to buyer
    assert_eq!(m.token_owner(0, 0), Some(200));

    // Token no longer for sale
    assert_eq!(m.buy(100, 0, 0), Err(Error::TokenNotForSale));

    // Can't buy a token not for sale
    assert_eq!(m.mint_nft_token(100, 0, vec![0], 0), Ok(1));
    assert_eq!(m.buy(200, 0, 1), Err(Error::TokenNotForSale));

    // Can't buy your own token
    assert_eq!(m.create_sale(100, 0, 1, sales_price), Ok(()));
    assert_eq!(m.buy(100, 0, 1), Err(Error::BuyerSellerSame));
}

#[test]
fn delete_sale() {
    let mut m = setup();
    assert_eq!(m.create_nft_class(100, vec![0], 0, 10, 10), Ok(0));

    assert_eq!(m.mint_nft_token(100, 0, vec![0], 0), Ok(0));
    assert_eq!(m.create_sale(100, 0, 0, 20), Ok(()));

    // Can't remove a sale on a token you don't own
    assert_eq!(m.delete_sale(200, 0, 0), Err(Error::TokenNotOwned));

    // Can remove a sale
    assert_eq!(m.delete_sale(100, 0, 0), Ok(()));

    // Can't buy after the sale is removed
    assert_eq!(m.buy(200, 0, 0), Err(Error::TokenNotForSale));

    // Removing a sale that doesn't exist fails the same way
    assert_eq!(m.delete_sale(100, 0, 0), Err(Error::TokenNotForSale));
}
