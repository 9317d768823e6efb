use std::collections::HashMap;

use smol_sc::{Contract, OfferBuy, OfferSellAsset, OfferSellAssetGet, Transfer};

const ADMIN: u64 = 1;
const FEE_ADDRESS: u64 = 2;
const FEE_SAC: u64 = 100;
const CONTRACT_ID: u64 = 1000;

const GLYPH_SIZE: usize = 45 * 45;

fn initialize(mine_fee: i128, color_rate: i128, author_rate: i128) -> Contract {
    Contract::__constructor(ADMIN, FEE_SAC, FEE_ADDRESS, mine_fee, color_rate, author_rate, CONTRACT_ID)
}

fn palette(variant: usize) -> Vec<u8> {
    let mut pixels = vec![0u8; GLYPH_SIZE];
    for i in (1000 + variant)..GLYPH_SIZE {
        pixels[i] = 1;
    }
    pixels
}

fn mint(client: &mut Contract, author: u64, owner: u64, variant: usize) -> u32 {
    client
        .glyph_mint(
            author,
            owner,
            palette(variant),
            vec![0, 16777215],
            45,
            String::from("Hello World"),
            String::from("Lorem Ipsum"),
        )
        .unwrap()
}

fn apply_transfer(balances: &mut HashMap<u64, i128>, t: Transfer) {
    *balances.entry(t.from).or_insert(0) -= t.amount;
    *balances.entry(t.to).or_insert(0) += t.amount;
}

fn balance(balances: &HashMap<u64, i128>, who: u64) -> i128 {
    *balances.get(&who).unwrap_or(&0)
}

#[test]
fn test_offer_glyph_for_glyph() {
    let mine_fee = 250_0000000;
    let color_owner_royalty_rate = 2;
    let glyph_author_royalty_rate = 5;

    let mut client = initialize(mine_fee, color_owner_royalty_rate, glyph_author_royalty_rate);

    let user_1 = 11;
    let user_2 = 12;

    let glyph_1_hash = mint(&mut client, user_1, user_1, 0);
    let glyph_2_hash = mint(&mut client, user_2, user_2, 1);

    client.offer_sell_glyph(glyph_1_hash, OfferBuy::Glyph(glyph_2_hash)).unwrap();

    let offer_1 = client.offer_sell_glyph_get(glyph_1_hash, None).unwrap();

    // check that offer is stored correctly
    assert_eq!(offer_1.is_some(), true);

    // match offer
    client.offer_sell_glyph(glyph_2_hash, OfferBuy::Glyph(glyph_1_hash)).unwrap();

    let offer_2 = client.offer_sell_glyph_get(glyph_2_hash, None).unwrap();

    assert_eq!(offer_2.is_none(), true);

    let glyph_1_owner = client.glyph_owner_get(glyph_1_hash).unwrap();
    let glyph_2_owner = client.glyph_owner_get(glyph_2_hash).unwrap();

    // ensure ownership swapped
    assert_eq!(glyph_1_owner, user_2);
    assert_eq!(glyph_2_owner, user_1);

    let offer_1 = client.offer_sell_glyph_get(glyph_1_hash, None).unwrap();

    // ensure no offers are open
    assert_eq!(offer_1.is_none(), true);
}

#[test]
fn test_offer_glyph_for_asset() {
    let mine_fee = 250_0000000;
    let color_owner_royalty_rate = 2;
    let glyph_author_royalty_rate = 5;

    let mut client = initialize(mine_fee, color_owner_royalty_rate, glyph_author_royalty_rate);
    let mut balances: HashMap<u64, i128> = HashMap::new();

    let amount = 100_0000000;

    let user_1 = 11;
    let user_2 = 12;

    balances.insert(user_2, amount);

    let glyph_1_hash = mint(&mut client, user_1, user_1, 0);

    client.offer_sell_glyph(glyph_1_hash, OfferBuy::Asset(FEE_SAC, amount)).unwrap();

    let offer_1 = client.offer_sell_glyph_get(glyph_1_hash, None).unwrap();

    // check that offer is stored correctly
    assert_eq!(offer_1.is_some(), true);

    // match offer
    let (matched, escrow) = client
        .offer_sell_asset(OfferSellAsset(user_2, FEE_SAC, amount), glyph_1_hash)
        .unwrap();
    assert_eq!(matched, Some(()));
    apply_transfer(&mut balances, escrow);

    let offer_2 = client
        .offer_sell_asset_get(OfferSellAssetGet(None, FEE_SAC, amount), glyph_1_hash)
        .unwrap();

    assert_eq!(offer_2.is_none(), true);

    let payout = client.royalties_claim(user_1, FEE_SAC).unwrap();
    apply_transfer(&mut balances, payout);

    let glyph_1_owner = client.glyph_owner_get(glyph_1_hash).unwrap();
    let user_1_balance = balance(&balances, user_1);

    // ensure user 2 has their glyph
    assert_eq!(glyph_1_owner, user_2);
    // ensure user 1 has their money
    assert_eq!(user_1_balance, amount);

    let offer_1 = client.offer_sell_glyph_get(glyph_1_hash, None).unwrap();

    // ensure no offers are open
    assert_eq!(offer_1.is_none(), true);
}

#[test]
fn test_offer_asset_for_glyph() {
    let mine_fee = 250_0000000;
    let color_owner_royalty_rate = 2;
    let glyph_author_royalty_rate = 5;

    let mut client = initialize(mine_fee, color_owner_royalty_rate, glyph_author_royalty_rate);
    let mut balances: HashMap<u64, i128> = HashMap::new();

    let amount = 100_0000000;

    let user_1 = 11;
    let user_2 = 12;

    balances.insert(user_2, amount);

    let glyph_1_hash = mint(&mut client, user_1, user_1, 0);

    let (matched, escrow) = client
        .offer_sell_asset(OfferSellAsset(user_2, FEE_SAC, amount), glyph_1_hash)
        .unwrap();
    assert_eq!(matched, None);
    apply_transfer(&mut balances, escrow);

    let offer_1 = client
        .offer_sell_asset_get(OfferSellAssetGet(None, FEE_SAC, amount), glyph_1_hash)
        .unwrap();

    // check that offer is stored correctly
    assert_eq!(offer_1.is_some(), true);

    // match offer
    let matched_owner = client
        .offer_sell_glyph(glyph_1_hash, OfferBuy::Asset(FEE_SAC, amount))
        .unwrap();
    assert_eq!(matched_owner, Some(user_2));

    let offer_2 = client.offer_sell_glyph_get(glyph_1_hash, None).unwrap();

    assert_eq!(offer_2.is_none(), true);

    let payout = client.royalties_claim(user_1, FEE_SAC).unwrap();
    apply_transfer(&mut balances, payout);

    let glyph_1_owner = client.glyph_owner_get(glyph_1_hash).unwrap();
    let user_1_balance = balance(&balances, user_1);

    // ensure user 2 has their glyph
    assert_eq!(glyph_1_owner, user_2);
    // ensure user 1 has their money
    assert_eq!(user_1_balance, amount);

    let offer_1 = client
        .offer_sell_asset_get(OfferSellAssetGet(None, FEE_SAC, amount), glyph_1_hash)
        .unwrap();

    // ensure no offers are open
    assert_eq!(offer_1.is_none(), true);
}

#[test]
fn test_multiple_offers_and_royalties() {
    let mine_fee = 250_0000000;
    let color_owner_royalty_rate = 2;
    let glyph_author_royalty_rate = 5;

    let mut client = initialize(mine_fee, color_owner_royalty_rate, glyph_author_royalty_rate);
    let mut balances: HashMap<u64, i128> = HashMap::new();

    let amount = 100_0000000;

    let user_1 = 11;
    let user_2 = 12;
    let user_3 = 13;

    balances.insert(user_2, amount);
    balances.insert(user_3, amount + mine_fee + mine_fee);

    let fee = client.color_claim(user_3, user_3, 0).unwrap();
    apply_transfer(&mut balances, fee);
    let fee = client.color_claim(user_3, user_3, 16777215).unwrap();
    apply_transfer(&mut balances, fee);

    let glyph_1_hash = mint(&mut client, user_1, user_1, 0);

    // Make 2 offers from user 2 and user 3 for the same glyph_1
    let (_, escrow) = client
        .offer_sell_asset(OfferSellAsset(user_2, FEE_SAC, amount), glyph_1_hash)
        .unwrap();
    apply_transfer(&mut balances, escrow);
    let (_, escrow) = client
        .offer_sell_asset(OfferSellAsset(user_3, FEE_SAC, amount), glyph_1_hash)
        .unwrap();
    apply_transfer(&mut balances, escrow);

    // ensure there are 2 offers
    let offer_1 = client
        .offer_sell_asset_get(OfferSellAssetGet(None, FEE_SAC, amount), glyph_1_hash)
        .unwrap();

    assert_eq!(offer_1.unwrap(), 2);

    // match offer 1
    client.offer_sell_glyph(glyph_1_hash, OfferBuy::Asset(FEE_SAC, amount)).unwrap();

    // ensure user 2 owns the glyph
    let glyph_1_owner = client.glyph_owner_get(glyph_1_hash).unwrap();

    assert_eq!(glyph_1_owner, user_2);

    // ensure there's only one offer left
    let offer_1 = client
        .offer_sell_asset_get(OfferSellAssetGet(None, FEE_SAC, amount), glyph_1_hash)
        .unwrap();

    assert_eq!(offer_1.unwrap(), 1);

    // match offer 2
    client.offer_sell_glyph(glyph_1_hash, OfferBuy::Asset(FEE_SAC, amount)).unwrap();

    // ensure user 3 owns the glyph
    let glyph_1_owner = client.glyph_owner_get(glyph_1_hash).unwrap();

    assert_eq!(glyph_1_owner, user_3);

    // ensure there are no offers left
    let offer_1 = client
        .offer_sell_asset_get(OfferSellAssetGet(None, FEE_SAC, amount), glyph_1_hash)
        .unwrap();

    assert_eq!(offer_1.is_none(), true);

    let payout = client.royalties_claim(user_1, FEE_SAC).unwrap();
    apply_transfer(&mut balances, payout);
    let payout = client.royalties_claim(user_2, FEE_SAC).unwrap();
    apply_transfer(&mut balances, payout);
    let payout = client.royalties_claim(user_3, FEE_SAC).unwrap();
    apply_transfer(&mut balances, payout);

    // ensure user 1 has their money: author royalty from the second sale,
    // less the color owner royalty, plus one unit of rounding
    let user_1_balance = balance(&balances, user_1);

    assert_eq!(user_1_balance, amount + 5_0000000 - 2_0000000 + 1);

    // ensure user 2 has their money
    let user_2_balance = balance(&balances, user_2);

    assert_eq!(user_2_balance, amount - 5_0000000 - 2_0000000 + 1);

    // ensure user 3 has their money: 2 glyph sales at 2% for owning all of
    // the colors, less rounding
    let user_3_balance = balance(&balances, user_3);

    assert_eq!(user_3_balance, 2_0000000 + 2_0000000 - 2);

    // ensure contract has no money
    let contract_balance = balance(&balances, CONTRACT_ID);

    assert_eq!(contract_balance, 0);
}

#[test]
fn test_get_offers() {
    let mine_fee = 250_0000000;
    let color_owner_royalty_rate = 2;
    let glyph_author_royalty_rate = 5;

    let mut client = initialize(mine_fee, color_owner_royalty_rate, glyph_author_royalty_rate);
    let mut balances: HashMap<u64, i128> = HashMap::new();

    let user_1 = 11;

    balances.insert(user_1, 100);

    let glyph_1_hash = mint(&mut client, user_1, user_1, 0);
    let glyph_2_hash = mint(&mut client, user_1, user_1, 1);

    client.offer_sell_glyph(glyph_1_hash, OfferBuy::Asset(FEE_SAC, 0)).unwrap();

    client.offer_sell_glyph(glyph_1_hash, OfferBuy::Glyph(glyph_2_hash)).unwrap();

    let (_, escrow) = client
        .offer_sell_asset(OfferSellAsset(user_1, FEE_SAC, 100), glyph_1_hash)
        .unwrap();
    apply_transfer(&mut balances, escrow);

    let offer_1 = client.offer_sell_glyph_get(glyph_1_hash, None).unwrap();
    let offer_2 = client
        .offer_sell_glyph_get(glyph_1_hash, Some(OfferBuy::Asset(FEE_SAC, 0)))
        .unwrap();

    let offer_3 = client
        .offer_sell_glyph_get(glyph_1_hash, Some(OfferBuy::Glyph(glyph_2_hash)))
        .unwrap();

    let offer_4 = client
        .offer_sell_asset_get(OfferSellAssetGet(None, FEE_SAC, 100), glyph_1_hash)
        .unwrap();
    let offer_5 = client
        .offer_sell_asset_get(OfferSellAssetGet(Some(user_1), FEE_SAC, 100), glyph_1_hash)
        .unwrap();

    assert_eq!(offer_1.unwrap(), 2); // 2 total buy my glyph offers
    assert_eq!(offer_2.unwrap(), 0); // index 0 on the buy my glyph with an asset offer
    assert_eq!(offer_3.unwrap(), 1); // index 1 on the by my glyph with this glyph offer
    assert_eq!(offer_4.unwrap(), 1); // 1 total buy this glyph with this asset offer
    assert_eq!(offer_5.unwrap(), 0); // 0 index on the buy this glyph with my asset offer
}

#[test]
fn test_remove_offers() {
    let mine_fee = 250_0000000;
    let color_owner_royalty_rate = 2;
    let glyph_author_royalty_rate = 5;

    let mut client = initialize(mine_fee, color_owner_royalty_rate, glyph_author_royalty_rate);
    let mut balances: HashMap<u64, i128> = HashMap::new();

    let user_1 = 11;

    balances.insert(user_1, 100);

    let glyph_1_hash = mint(&mut client, user_1, user_1, 0);
    let glyph_2_hash = mint(&mut client, user_1, user_1, 1);

    client.offer_sell_glyph(glyph_1_hash, OfferBuy::Asset(FEE_SAC, 0)).unwrap();

    client.offer_sell_glyph(glyph_1_hash, OfferBuy::Glyph(glyph_2_hash)).unwrap();

    let (_, escrow) = client
        .offer_sell_asset(OfferSellAsset(user_1, FEE_SAC, 100), glyph_1_hash)
        .unwrap();
    apply_transfer(&mut balances, escrow);

    // ensure user funds were withdrawn
    let user_1_balance = balance(&balances, user_1);

    assert_eq!(user_1_balance, 0);

    client
        .offer_sell_glyph_remove(glyph_1_hash, Some(OfferBuy::Asset(FEE_SAC, 0)))
        .unwrap();

    client
        .offer_sell_glyph_remove(glyph_1_hash, Some(OfferBuy::Glyph(glyph_2_hash)))
        .unwrap();

    let refund = client
        .offer_sell_asset_remove(OfferSellAsset(user_1, FEE_SAC, 100), glyph_1_hash)
        .unwrap();
    apply_transfer(&mut balances, refund);

    let offer_1 = client.offer_sell_glyph_get(glyph_1_hash, None).unwrap();
    let offer_2 = client
        .offer_sell_asset_get(OfferSellAssetGet(None, FEE_SAC, 100), glyph_1_hash)
        .unwrap();

    assert_eq!(offer_1.is_none(), true);
    assert_eq!(offer_2.is_none(), true);

    // ensure user's funds were returned
    let user_1_balance = balance(&balances, user_1);

    assert_eq!(user_1_balance, 100);
}

#[test]
fn test_remove_all_buy_me_now_offers() {
    let mine_fee = 250_0000000;
    let color_owner_royalty_rate = 2;
    let glyph_author_royalty_rate = 5;

    let mut client = initialize(mine_fee, color_owner_royalty_rate, glyph_author_royalty_rate);

    let user_1 = 11;
    let user_2 = 12;

    let glyph_1_hash = mint(&mut client, user_1, user_1, 0);

    for index in 0..10 {
        client.offer_sell_glyph(glyph_1_hash, OfferBuy::Asset(FEE_SAC, index)).unwrap();
    }

    let offers = client.offer_sell_glyph_get(glyph_1_hash, None).unwrap();

    assert_eq!(offers.unwrap(), 10);

    client.offer_sell_asset(OfferSellAsset(user_2, FEE_SAC, 0), glyph_1_hash).unwrap();

    let offers = client.offer_sell_glyph_get(glyph_1_hash, None).unwrap();

    assert_eq!(offers.is_none(), true);

    for index in 0..10 {
        client.offer_sell_glyph(glyph_1_hash, OfferBuy::Asset(FEE_SAC, index)).unwrap();
    }

    client.offer_sell_glyph_remove(glyph_1_hash, None).unwrap();

    let offers = client.offer_sell_glyph_get(glyph_1_hash, None).unwrap();

    assert_eq!(offers.is_none(), true);
}
