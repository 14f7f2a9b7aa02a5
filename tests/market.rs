use nft_market::ids::from_le_bytes;
use nft_market::pallet::{sweep_due, Pallet};
use nft_market::types::{Error, Event, NftStatus};

const SEED: [u8; 32] = [7u8; 32];

fn id(byte: u8) -> u128 {
    from_le_bytes(&[byte; 16])
}

fn store() -> Pallet {
    let mut p = Pallet::new(1, 10, 1);
    for who in 1u64..=9 {
        p.set_balance(who, 1_000_000);
    }
    p
}

fn mint_simple(p: &mut Pallet, owner: u64, nft: u128, royalty: Vec<(u64, u8)>, coll: u128) -> Result<(), Error> {
    p.mint(owner, nft, vec![1], Some(vec![1]), vec![1], vec![1], None, royalty, coll)
}

#[test]
fn it_works_for_default_value() {
    let mut p = store();
    assert!(p.create_collection(1, &SEED, 0, 1, vec![1], Some(vec![1])).is_ok());
    assert_eq!(p.mint_collection(1, id(6), vec![1], Some(vec![1])), Ok(()));
    assert_eq!(p.mint_collection(1, id(1), vec![1], Some(vec![1])), Ok(()));
    assert!(p
        .mint_nft(1, &SEED, 1, 1, vec![1], Some(vec![1]), vec![1], vec![1], Some(0), vec![(5, 1)], id(6))
        .is_ok());
    assert_eq!(
        p.mint(1, id(0), vec![1], Some(vec![1]), vec![1], vec![1], Some(0), vec![(5, 1)], id(1)),
        Ok(())
    );
    assert_eq!(p.set_sale_nft(1, id(0), Some(10u128), 100), Ok(()));
    assert_eq!(p.pay_installment(2, id(0), 2, 5u128, 16), Ok(()));
}

#[test]
fn deposits_follow_record_size() {
    let mut p = store();
    assert_eq!(p.mint_collection(1, id(6), vec![1, 2, 3], None), Ok(()));
    // three bytes of title and sixteen of identifier
    assert_eq!(p.reserved_balance(1), 19);
    assert_eq!(p.free_balance(1), 1_000_000 - 19);
    assert_eq!(mint_simple(&mut p, 1, id(0), vec![(5, 1)], id(6)), Ok(()));
    // four one-byte fields, one royalty entry, the collection and the rest
    assert_eq!(p.token_by_id(id(0)).unwrap().deposit, 1 + 1 + 1 + 1 + 16 + 16 + 32);
    assert_eq!(p.reserved_balance(1), 19 + 68);
}

#[test]
fn royalty_split_accounts_for_price() {
    let mut p = store();
    p.mint_collection(1, id(6), vec![1], None).unwrap();
    mint_simple(&mut p, 1, id(0), vec![(3, 33), (4, 33), (1, 10)], id(6)).unwrap();
    p.set_sale_nft(1, id(0), Some(101), 100).unwrap();
    let seller_before = p.free_balance(1);
    let proceeds = p.buy_nft(2, id(0)).unwrap();
    assert_eq!(p.free_balance(3), 1_000_000 + 33);
    assert_eq!(p.free_balance(4), 1_000_000 + 33);
    assert_eq!(proceeds, 35);
    assert_eq!(p.free_balance(2), 1_000_000 - 101);
    // the seller gets the proceeds and both deposits back
    assert_eq!(p.free_balance(1), seller_before + 35 + 10 + 100);
    assert_eq!(p.token_by_id(id(0)).unwrap().owner, 2);
    assert_eq!(p.token_sale(id(0)), None);
    assert_eq!(p.nft_status(id(0)), NftStatus::Normal);
}

#[test]
fn buy_without_listing_fails() {
    let mut p = store();
    p.mint_collection(1, id(6), vec![1], None).unwrap();
    mint_simple(&mut p, 1, id(0), vec![], id(6)).unwrap();
    let free = (p.free_balance(1), p.free_balance(2));
    assert_eq!(p.buy_nft(2, id(0)), Err(Error::NotSelling));
    assert_eq!((p.free_balance(1), p.free_balance(2)), free);
    assert_eq!(p.token_by_id(id(0)).unwrap().owner, 1);
    p.set_sale_nft(1, id(0), None, 100).unwrap();
    assert_eq!(p.buy_nft(2, id(0)), Err(Error::NotSelling));
    assert_eq!(p.buy_nft(2, id(9)), Err(Error::NoNFT));
}

#[test]
fn listing_twice_keeps_first_listing() {
    let mut p = store();
    p.mint_collection(1, id(6), vec![1], None).unwrap();
    mint_simple(&mut p, 1, id(0), vec![], id(6)).unwrap();
    assert_eq!(p.set_sale_nft(1, id(0), Some(50), 100), Ok(()));
    let first = p.token_sale(id(0)).unwrap();
    let reserved = p.reserved_balance(1);
    assert_eq!(p.set_sale_nft(1, id(0), Some(80), 200), Ok(()));
    assert_eq!(p.token_sale(id(0)).unwrap(), first);
    assert_eq!(p.token_sale(id(0)).unwrap().price, Some(50));
    assert_eq!(p.reserved_balance(1), reserved);
    assert_eq!(p.set_nft_price(1, id(0), Some(80)), Ok(()));
    assert_eq!(p.token_sale(id(0)).unwrap().price, Some(80));
}

#[test]
fn installment_completes_at_price() {
    let mut p = store();
    let seller: u64 = 1;
    let payer: u64 = 2;
    let beneficiary: u64 = 3;
    p.mint_collection(seller, id(6), vec![1], None).unwrap();
    mint_simple(&mut p, seller, id(0), vec![(beneficiary, 10)], id(6)).unwrap();
    p.set_sale_nft(seller, id(0), Some(100), 1_000).unwrap();
    let seller_free = p.free_balance(seller);
    assert_eq!(p.pay_installment(payer, id(0), 4, 30, 10), Ok(()));
    let order = p.order_by_id(id(0)).unwrap();
    assert_eq!(order.paid, 30);
    assert_eq!(order.periods_left, 3);
    assert_eq!(order.next_pay_amount, 23);
    assert_eq!(p.nft_status(id(0)), NftStatus::PayingInstalment);
    assert_eq!(p.token_by_id(id(0)).unwrap().installment_account, Some(payer));
    assert_eq!(p.pay_installment(payer, id(0), 4, 30, 20), Ok(()));
    assert_eq!(p.order_by_id(id(0)).unwrap().next_pay_amount, 20);
    assert_eq!(p.pay_installment(payer, id(0), 4, 30, 30), Ok(()));
    assert_eq!(p.order_by_id(id(0)).unwrap().paid, 90);
    assert_eq!(p.reserved_balance(payer), 90);
    assert_eq!(p.pay_installment(payer, id(0), 4, 30, 40), Ok(()));
    assert_eq!(p.token_by_id(id(0)).unwrap().owner, payer);
    assert_eq!(p.token_by_id(id(0)).unwrap().installment_account, None);
    assert_eq!(p.order_by_id(id(0)), None);
    assert_eq!(p.token_sale(id(0)), None);
    assert_eq!(p.free_balance(beneficiary), 1_000_000 + 10);
    assert_eq!(p.free_balance(seller), seller_free + 90 + 10 + 68);
    // the payer paid the price and keeps what it paid beyond it
    assert_eq!(p.free_balance(payer), 1_000_000 - 100);
    assert_eq!(p.reserved_balance(payer), 0);
}

#[test]
fn installment_plan_lapses_after_window() {
    let start: u64 = 1_000;
    let mut p = store();
    p.mint_collection(1, id(6), vec![1], None).unwrap();
    mint_simple(&mut p, 1, id(0), vec![], id(6)).unwrap();
    p.set_sale_nft(1, id(0), Some(100), 10_000_000).unwrap();
    p.pay_installment(2, id(0), 3, 30, start).unwrap();
    p.check_installment_orders(start + 2_591_999);
    assert!(p.order_by_id(id(0)).is_some());
    p.check_installment_orders(start + 2_592_001);
    assert_eq!(p.order_by_id(id(0)), None);
    assert_eq!(p.token_by_id(id(0)).unwrap().owner, 1);
    assert_eq!(p.token_by_id(id(0)).unwrap().installment_account, None);
    assert_eq!(p.nft_status(id(0)), NftStatus::Selling);
    assert_eq!(p.free_balance(2), 1_000_000);
    assert_eq!(p.reserved_balance(2), 0);
    p.check_installment_orders(start + 2_592_001);
    assert_eq!(p.order_by_id(id(0)), None);
}

#[test]
fn destroy_collection_with_asset_fails() {
    let mut p = store();
    p.mint_collection(1, id(6), vec![1], None).unwrap();
    mint_simple(&mut p, 1, id(0), vec![], id(6)).unwrap();
    assert_eq!(p.destroy_collection(1, id(6)), Err(Error::TokenInCollection));
    assert_eq!(p.destroy_collection(2, id(6)), Err(Error::TokenInCollection));
    assert!(p.collection_by_id(id(6)).is_some());
    assert_eq!(p.burn_nft(1, id(0)), Ok(()));
    assert_eq!(p.destroy_collection(2, id(6)), Err(Error::NotOwner));
    assert_eq!(p.destroy_collection(1, id(6)), Ok(()));
    assert!(p.collection_by_id(id(6)).is_none());
    assert_eq!(p.destroy_collection(1, id(6)), Err(Error::NoCollection));
    assert_eq!(p.reserved_balance(1), 0);
}

#[test]
fn edit_by_other_account_fails() {
    let mut p = store();
    p.mint_collection(1, id(6), vec![1], None).unwrap();
    mint_simple(&mut p, 1, id(0), vec![], id(6)).unwrap();
    let reserved = p.reserved_balance(1);
    let r = p.edit_nft(2, id(0), vec![9, 9], None, vec![], vec![], None, vec![], id(6));
    assert_eq!(r, Err(Error::NotOwner));
    let t = p.token_by_id(id(0)).unwrap();
    assert_eq!(t.title, vec![1]);
    assert_eq!(t.deposit, 52);
    assert_eq!(p.reserved_balance(1), reserved);
    assert_eq!(p.reserved_balance(2), 0);
    let r = p.edit_nft(1, id(0), vec![9, 9], None, vec![], vec![], None, vec![], id(6));
    assert_eq!(r, Ok(()));
    assert_eq!(p.token_by_id(id(0)).unwrap().title, vec![9, 9]);
    assert_eq!(p.token_by_id(id(0)).unwrap().deposit, 2 + 16 + 32);
    assert_eq!(p.reserved_balance(1), 17 + 50);
}

#[test]
fn edit_collection_keeps_title_when_none_given() {
    let mut p = store();
    p.mint_collection(1, id(6), vec![1, 2], None).unwrap();
    assert_eq!(p.edit_collection(1, id(6), None, Some(vec![5, 5, 5])), Ok(()));
    let c = p.collection_by_id(id(6)).unwrap();
    assert_eq!(c.title, vec![1, 2]);
    assert_eq!(c.deposit, 2 + 3 + 16);
    assert_eq!(p.reserved_balance(1), 21);
    assert_eq!(p.edit_collection(2, id(6), None, None), Err(Error::NotOwner));
    assert_eq!(p.edit_collection(1, id(5), None, None), Err(Error::NoCollection));
}

#[test]
fn burnt_asset_leaves_market() {
    let mut p = store();
    p.mint_collection(1, id(6), vec![1], None).unwrap();
    mint_simple(&mut p, 1, id(0), vec![], id(6)).unwrap();
    p.set_sale_nft(1, id(0), Some(5), 100).unwrap();
    assert_eq!(p.burn_nft(2, id(0)), Err(Error::NotOwner));
    assert_eq!(p.burn_nft(1, id(0)), Ok(()));
    assert!(p.token_by_id(id(0)).unwrap().burnt);
    assert_eq!(p.token_sale(id(0)), None);
    assert_eq!(p.reserved_balance(1), 17);
    assert_eq!(p.burn_nft(1, id(0)), Err(Error::BurntNFT));
    assert_eq!(p.set_sale_nft(1, id(0), Some(5), 100), Err(Error::NoNFT));
    assert_eq!(p.buy_nft(2, id(0)), Err(Error::NotSelling));
    assert_eq!(p.burn_nft(1, id(3)), Err(Error::NoNFT));
}

#[test]
fn errors_of_minting() {
    let mut p = store();
    p.mint_collection(1, id(6), vec![1], None).unwrap();
    assert_eq!(p.mint_collection(1, id(6), vec![1], None), Err(Error::DuplicateCollection));
    assert_eq!(mint_simple(&mut p, 1, id(0), vec![], id(7)), Err(Error::NoCollection));
    assert_eq!(mint_simple(&mut p, 1, id(0), vec![(2, 60), (3, 41)], id(6)), Err(Error::RoyaltyTooHigh));
    assert_eq!(mint_simple(&mut p, 1, id(0), vec![(2, 60), (3, 40)], id(6)), Ok(()));
    assert_eq!(mint_simple(&mut p, 1, id(0), vec![], id(6)), Err(Error::DuplicateNFT));
    p.set_balance(8, 3);
    assert_eq!(mint_simple(&mut p, 8, id(1), vec![], id(6)), Err(Error::InsufficientBalance));
    assert!(p.token_by_id(id(1)).is_none());
    assert_eq!(p.free_balance(8), 3);
}

#[test]
fn errors_of_selling() {
    let mut p = store();
    p.mint_collection(1, id(6), vec![1], None).unwrap();
    mint_simple(&mut p, 1, id(0), vec![], id(6)).unwrap();
    assert_eq!(p.set_sale_nft(2, id(0), Some(5), 100), Err(Error::NotOwner));
    assert_eq!(p.set_sale_nft(1, id(4), Some(5), 100), Err(Error::NoNFT));
    assert_eq!(p.set_nft_price(1, id(0), Some(5)), Err(Error::NoListing));
    assert_eq!(p.set_nft_price(2, id(0), Some(5)), Err(Error::NotOwner));
    assert_eq!(p.set_nft_price(1, id(4), Some(5)), Err(Error::NoNFT));
    p.set_sale_nft(1, id(0), Some(500), 100).unwrap();
    assert_eq!(p.buy_nft(1, id(0)), Err(Error::TransferToSelf));
    p.set_balance(8, 500);
    assert_eq!(p.buy_nft(8, id(0)), Err(Error::InsufficientBalance));
    assert_eq!(p.free_balance(8), 500);
    p.set_balance(1, u128::MAX);
    assert_eq!(p.buy_nft(2, id(0)), Err(Error::Overflow));
    assert_eq!(p.free_balance(2), 1_000_000);
    assert_eq!(p.token_by_id(id(0)).unwrap().owner, 1);
}

#[test]
fn errors_of_installments() {
    let mut p = store();
    p.mint_collection(1, id(6), vec![1], None).unwrap();
    mint_simple(&mut p, 1, id(0), vec![], id(6)).unwrap();
    assert_eq!(p.pay_installment(2, id(0), 0, 10, 5), Err(Error::FromOneToSixMonths));
    assert_eq!(p.pay_installment(2, id(0), 7, 10, 5), Err(Error::FromOneToSixMonths));
    assert_eq!(p.pay_installment(2, id(4), 3, 10, 5), Err(Error::NoNFT));
    assert_eq!(p.pay_installment(2, id(0), 3, 10, 5), Err(Error::NotSelling));
    p.set_sale_nft(1, id(0), Some(100), 1_000).unwrap();
    assert_eq!(p.pay_installment(1, id(0), 3, 10, 5), Err(Error::TransferToSelf));
    assert_eq!(p.pay_installment(2, id(0), 3, 10, 5), Ok(()));
    assert_eq!(p.pay_installment(3, id(0), 3, 10, 5), Err(Error::NoOrder));
    assert_eq!(p.pay_installment(2, id(0), 3, 29, 6), Err(Error::InsufficientDeposit));
    assert_eq!(p.pay_installment(2, id(0), 3, u128::MAX, 6), Err(Error::Overflow));
    assert_eq!(p.set_nft_price(1, id(0), Some(5)), Err(Error::NFTInInstallment));
    assert_eq!(p.burn_nft(1, id(0)), Err(Error::NFTInInstallment));
    assert_eq!(p.buy_nft(3, id(0)), Err(Error::NFTInInstallment));
    assert_eq!(p.order_by_id(id(0)).unwrap().paid, 10);
    assert_eq!(p.get_installment_orders().len(), 1);
    assert_eq!(p.get_installment_orders()[0].nft_id, id(0));
}

#[test]
fn outdated_listings_are_withdrawn() {
    let mut p = store();
    p.mint_collection(1, id(6), vec![1], None).unwrap();
    mint_simple(&mut p, 1, id(0), vec![], id(6)).unwrap();
    mint_simple(&mut p, 1, id(1), vec![], id(6)).unwrap();
    mint_simple(&mut p, 1, id(2), vec![], id(6)).unwrap();
    p.set_sale_nft(1, id(0), Some(100), 50).unwrap();
    p.set_sale_nft(1, id(1), Some(100), 500).unwrap();
    p.set_sale_nft(1, id(2), Some(100), 50).unwrap();
    p.pay_installment(2, id(2), 2, 10, 10).unwrap();
    assert_eq!(p.reserved_balance(2), 10);
    let reserved = p.reserved_balance(1);
    let events = p.events().len();
    p.remove_outdate_sales(100);
    assert_eq!(p.token_sale(id(0)), None);
    assert!(p.token_sale(id(1)).is_some());
    assert_eq!(p.token_sale(id(2)), None);
    assert_eq!(p.order_by_id(id(2)), None);
    assert_eq!(p.token_by_id(id(2)).unwrap().installment_account, None);
    assert_eq!(p.token_by_id(id(2)).unwrap().owner, 1);
    assert_eq!(p.reserved_balance(1), reserved - 20);
    assert_eq!(p.reserved_balance(2), 0);
    assert_eq!(p.free_balance(2), 1_000_000);
    assert_eq!(p.events().len(), events);
    p.remove_outdate_sales(100);
    assert!(p.token_sale(id(1)).is_some());
    assert_eq!(p.reserved_balance(1), reserved - 20);
}

#[test]
fn listing_by_other_account_reports_existing_listing() {
    let mut p = store();
    p.mint_collection(1, id(6), vec![1], None).unwrap();
    mint_simple(&mut p, 1, id(0), vec![], id(6)).unwrap();
    p.set_sale_nft(1, id(0), Some(50), 100).unwrap();
    let first = p.token_sale(id(0)).unwrap();
    assert_eq!(p.set_sale_nft(2, id(0), Some(80), 200), Ok(()));
    assert_eq!(p.token_sale(id(0)).unwrap(), first);
    assert_eq!(p.reserved_balance(2), 0);
    assert_eq!(
        p.events().last(),
        Some(&Event::NFTOnSale { nft: id(0), price: Some(50) })
    );
}

#[test]
fn first_payment_reaching_price_completes_sale() {
    let mut p = store();
    p.mint_collection(1, id(6), vec![1], None).unwrap();
    mint_simple(&mut p, 1, id(0), vec![(3, 10)], id(6)).unwrap();
    p.set_sale_nft(1, id(0), Some(100), 1_000).unwrap();
    assert_eq!(p.pay_installment(2, id(0), 3, 120, 5), Ok(()));
    assert_eq!(p.order_by_id(id(0)), None);
    assert_eq!(p.token_sale(id(0)), None);
    assert_eq!(p.token_by_id(id(0)).unwrap().owner, 2);
    assert_eq!(p.free_balance(2), 1_000_000 - 100);
    assert_eq!(p.free_balance(3), 1_000_000 + 10);
    assert_eq!(p.reserved_balance(2), 0);
}

#[test]
fn unreserve_keeps_what_free_balance_cannot_take() {
    let mut p = store();
    p.mint_collection(1, id(6), vec![1], None).unwrap();
    assert_eq!(p.reserved_balance(1), 17);
    p.set_balance(1, u128::MAX - 5);
    assert_eq!(p.destroy_collection(1, id(6)), Ok(()));
    assert_eq!(p.free_balance(1), u128::MAX);
    assert_eq!(p.reserved_balance(1), 12);
}

#[test]
fn identifiers_depend_on_position() {
    let a = Pallet::gen_id(&SEED, 0, 1);
    assert_eq!(a, Pallet::gen_id(&SEED, 0, 1));
    assert_ne!(a, Pallet::gen_id(&SEED, 1, 1));
    assert_ne!(a, Pallet::gen_id(&SEED, 0, 2));
    assert_ne!(a, from_le_bytes(&[7u8; 16]));
    let mut p = store();
    assert_eq!(p.create_collection(1, &SEED, 0, 1, vec![1], None), Ok(a));
    assert_eq!(p.create_collection(1, &SEED, 0, 1, vec![1], None), Err(Error::DuplicateCollection));
}

#[test]
fn bytes_read_least_significant_first() {
    let mut b = [0u8; 16];
    b[0] = 1;
    b[1] = 2;
    assert_eq!(from_le_bytes(&b), 513);
    assert_eq!(from_le_bytes(&[0xffu8; 16]), u128::MAX);
}

#[test]
fn next_payment_shares_remainder() {
    assert_eq!(Pallet::calc_next_pay_amount(70, 3), 23);
    assert_eq!(Pallet::calc_next_pay_amount(70, 0), 70);
    assert_eq!(Pallet::u8_to_balance(7), 7);
    assert_eq!(Pallet::u32_to_balance(70_000), 70_000);
    assert_eq!(Pallet::balance_to_u8(200), 200);
    assert!(sweep_due(288_000));
    assert!(!sweep_due(288_001));
}

#[test]
fn each_operation_reports_its_event() {
    let mut p = store();
    p.mint_collection(1, id(6), vec![1], None).unwrap();
    mint_simple(&mut p, 1, id(0), vec![(3, 10)], id(6)).unwrap();
    p.set_sale_nft(1, id(0), Some(100), 100).unwrap();
    p.set_sale_nft(1, id(0), Some(70), 100).unwrap();
    p.set_nft_price(1, id(0), Some(90)).unwrap();
    assert_eq!(p.buy_nft(2, id(0)), Ok(81));
    assert_eq!(p.buy_nft(2, id(0)), Err(Error::NotSelling));
    let expected = vec![
        Event::CreatedCollection { collection: id(6), owner: 1 },
        Event::Created { nft: id(0), owner: 1 },
        Event::SetSaleNFT { nft: id(0), price: Some(100) },
        Event::NFTOnSale { nft: id(0), price: Some(100) },
        Event::PriceSet { nft: id(0), price: Some(90) },
        Event::Bought { seller: 1, buyer: 2, nft: id(0), price: 81 },
        Event::Transferred { from: 1, to: 2, nft: id(0) },
    ];
    assert_eq!(p.events(), &expected);
}
