use std::collections::HashMap;

use smol_sc::{Body, Contract, Error, OfferBuy, OfferSellAsset, Transfer};

const ADMIN: u64 = 1;
const FEE_ADDRESS: u64 = 2;
const FEE_SAC: u64 = 100;
const CONTRACT_ID: u64 = 1000;

const GLYPH_SIZE: usize = 45 * 45;

fn initialize(mine_fee: i128, color_rate: i128, author_rate: i128) -> Contract {
    Contract::__constructor(ADMIN, FEE_SAC, FEE_ADDRESS, mine_fee, color_rate, author_rate, CONTRACT_ID)
}

fn palette(variant: usize) -> Vec<u8> {
    let mut pixels = vec![0u8; GLYPH_SIZE];
    for i in (1000 + variant)..GLYPH_SIZE {
        pixels[i] = 1;
    }
    pixels
}

fn apply_transfer(balances: &mut HashMap<u64, i128>, t: Transfer) {
    *balances.entry(t.from).or_insert(0) -= t.amount;
    *balances.entry(t.to).or_insert(0) += t.amount;
}

fn balance(balances: &HashMap<u64, i128>, who: u64) -> i128 {
    *balances.get(&who).unwrap_or(&0)
}

#[test]
fn test_color_claim_out_of_range() {
    let mut client = initialize(10, 2, 5);
    assert_eq!(client.color_claim(11, 11, 0x1000000), Err(Error::ColorOutOfRange));
}

#[test]
fn test_color_claim_duplicate() {
    let mut client = initialize(10, 2, 5);
    client.color_claim(11, 11, 7).unwrap();
    assert_eq!(client.color_claim(12, 12, 7), Err(Error::ColorAlreadyClaimed));
    assert_eq!(client.color_owner_get(7), Ok(11));
}

#[test]
fn test_color_get_unclaimed() {
    let client = initialize(10, 2, 5);
    assert_eq!(client.color_owner_get(0x123456), Err(Error::ColorNotClaimed));
}

#[test]
fn test_glyph_mint_duplicate() {
    // a 2025-pixel glyph with a two-entry legend gets identifier 1; the
    // identical pixels and width are rejected the second time
    let mut client = initialize(250_0000000, 2, 5);
    let id = client
        .glyph_mint(11, 11, palette(0), vec![0, 16777215], 45, String::new(), String::new())
        .unwrap();
    assert_eq!(id, 1);
    assert_eq!(
        client.glyph_mint(12, 12, palette(0), vec![0, 16777215], 45, String::new(), String::new()),
        Err(Error::GlyphAlreadyMinted)
    );
    // the first mint stands untouched
    assert_eq!(client.glyph_owner_get(1), Ok(11));
}

#[test]
fn test_glyph_mint_distinct_widths() {
    // the same pixels under another width hash differently and mint anew
    let mut client = initialize(250_0000000, 2, 5);
    let id_1 = client
        .glyph_mint(11, 11, palette(0), vec![0, 16777215], 45, String::new(), String::new())
        .unwrap();
    let id_2 = client
        .glyph_mint(11, 11, palette(0), vec![0, 16777215], 46, String::new(), String::new())
        .unwrap();
    assert_eq!(id_1, 1);
    assert_eq!(id_2, 2);
}

#[test]
fn test_glyph_too_big() {
    let mut client = initialize(250_0000000, 2, 5);
    let pixels = vec![0u8; GLYPH_SIZE + 1];
    assert_eq!(
        client.glyph_mint(11, 11, pixels, vec![0], 46, String::new(), String::new()),
        Err(Error::GlyphTooBig)
    );
}

#[test]
fn test_glyph_get_not_minted() {
    let client = initialize(250_0000000, 2, 5);
    assert!(matches!(client.glyph_get(1), Err(Error::GlyphNotMinted)));
    assert_eq!(client.glyph_owner_get(1), Err(Error::GlyphNotMinted));
}

#[test]
fn test_offer_duplicate() {
    let mut client = initialize(250_0000000, 2, 5);
    let id = client
        .glyph_mint(11, 11, palette(0), vec![0, 16777215], 45, String::new(), String::new())
        .unwrap();
    client.offer_sell_glyph(id, OfferBuy::Asset(FEE_SAC, 5)).unwrap();
    assert_eq!(
        client.offer_sell_glyph(id, OfferBuy::Asset(FEE_SAC, 5)),
        Err(Error::OfferDuplicate)
    );
    // a queued buyer cannot queue twice for the same key either
    client.offer_sell_asset(OfferSellAsset(12, FEE_SAC, 9), id).unwrap();
    assert_eq!(
        client.offer_sell_asset(OfferSellAsset(12, FEE_SAC, 9), id),
        Err(Error::OfferDuplicate)
    );
}

#[test]
fn test_offer_sell_glyph_not_minted() {
    let mut client = initialize(250_0000000, 2, 5);
    assert_eq!(
        client.offer_sell_glyph(1, OfferBuy::Asset(FEE_SAC, 5)),
        Err(Error::GlyphNotMinted)
    );
    assert_eq!(
        client.offer_sell_glyph_remove(1, None),
        Err(Error::GlyphNotMinted)
    );
}

#[test]
fn test_offer_remove_not_found() {
    let mut client = initialize(250_0000000, 2, 5);
    let id = client
        .glyph_mint(11, 11, palette(0), vec![0, 16777215], 45, String::new(), String::new())
        .unwrap();
    assert_eq!(
        client.offer_sell_glyph_remove(id, Some(OfferBuy::Asset(FEE_SAC, 5))),
        Err(Error::OfferNotFound)
    );
    assert_eq!(
        client.offer_sell_asset_remove(OfferSellAsset(12, FEE_SAC, 5), id),
        Err(Error::OfferNotFound)
    );
}

#[test]
fn test_offer_for_unminted_glyph() {
    // a seller may offer a swap against a glyph that is not minted yet,
    // and a buyer may escrow for one: only the selling glyph must exist
    let mut client = initialize(250_0000000, 2, 5);
    let id = client
        .glyph_mint(11, 11, palette(0), vec![0, 16777215], 45, String::new(), String::new())
        .unwrap();
    assert_eq!(client.offer_sell_glyph(id, OfferBuy::Glyph(77)), Ok(None));
    let (matched, escrow) = client.offer_sell_asset(OfferSellAsset(12, FEE_SAC, 5), 88).unwrap();
    assert_eq!(matched, None);
    assert_eq!(escrow.amount, 5);
    // the queued escrow can still be withdrawn
    let refund = client.offer_sell_asset_remove(OfferSellAsset(12, FEE_SAC, 5), 88).unwrap();
    assert_eq!(refund.amount, 5);
    assert_eq!(refund.to, 12);
}

#[test]
fn test_escrow_refund_exact() {
    // removing an unmatched asset-sell offer refunds exactly the escrowed
    // amount, to the escrower and to no one else
    let mut client = initialize(250_0000000, 2, 5);
    let mut balances: HashMap<u64, i128> = HashMap::new();
    balances.insert(12, 750);

    let id = client
        .glyph_mint(11, 11, palette(0), vec![0, 16777215], 45, String::new(), String::new())
        .unwrap();
    let (matched, escrow) = client.offer_sell_asset(OfferSellAsset(12, FEE_SAC, 750), id).unwrap();
    assert_eq!(matched, None);
    assert_eq!(escrow, Transfer { from: 12, to: CONTRACT_ID, sac: FEE_SAC, amount: 750 });
    apply_transfer(&mut balances, escrow);
    assert_eq!(balance(&balances, 12), 0);
    assert_eq!(balance(&balances, CONTRACT_ID), 750);

    let refund = client.offer_sell_asset_remove(OfferSellAsset(12, FEE_SAC, 750), id).unwrap();
    assert_eq!(refund, Transfer { from: CONTRACT_ID, to: 12, sac: FEE_SAC, amount: 750 });
    apply_transfer(&mut balances, refund);
    assert_eq!(balance(&balances, 12), 750);
    assert_eq!(balance(&balances, CONTRACT_ID), 0);
    assert_eq!(balance(&balances, 11), 0);
}

#[test]
fn test_lowest_principal_serviced_first() {
    // the queue is ordered by principal, not arrival: even when the
    // higher-ordered buyer escrowed first, the lowest-ordered one wins
    let mut client = initialize(250_0000000, 2, 5);
    let seller = 11;
    let late_low_buyer = 12;
    let early_high_buyer = 13;

    let id = client
        .glyph_mint(seller, seller, palette(0), vec![0, 16777215], 45, String::new(), String::new())
        .unwrap();
    client.offer_sell_asset(OfferSellAsset(early_high_buyer, FEE_SAC, 600), id).unwrap();
    client.offer_sell_asset(OfferSellAsset(late_low_buyer, FEE_SAC, 600), id).unwrap();

    let matched = client.offer_sell_glyph(id, OfferBuy::Asset(FEE_SAC, 600)).unwrap();
    assert_eq!(matched, Some(late_low_buyer));
    assert_eq!(client.glyph_owner_get(id), Ok(late_low_buyer));
}

#[test]
fn test_offer_glyph_for_itself() {
    // a glyph offered in exchange for itself matches its own standing
    // offer: ownership is unchanged and the offer set is purged
    let mut client = initialize(250_0000000, 2, 5);
    let id = client
        .glyph_mint(11, 11, palette(0), vec![0, 16777215], 45, String::new(), String::new())
        .unwrap();
    assert_eq!(client.offer_sell_glyph(id, OfferBuy::Glyph(id)), Ok(None));
    assert_eq!(client.offer_sell_glyph(id, OfferBuy::Glyph(id)), Ok(Some(11)));
    assert_eq!(client.glyph_owner_get(id), Ok(11));
    assert_eq!(client.offer_sell_glyph_get(id, None), Ok(None));
}

#[test]
fn test_royalty_split_exact() {
    // one sale of 1000000000 at rates 5 (author) and 2 (color owners),
    // over a glyph using palette index 0 on 1000 pixels and index 1 on
    // 1025 pixels, both legend colors owned by one principal:
    //   author:      floor(5 * 1000000000 / 100)            = 50000000
    //   color 0:     floor(20000000 * 1000 / 2025)          =  9876543
    //   color 1:     floor(20000000 * 1025 / 2025)          = 10123456
    //   remainder:   1000000000 - 50000000 - 19999999       = 930000001
    let mut client = initialize(10, 2, 5);
    let seller = 11;
    let buyer = 12;
    let color_owner = 13;

    client.color_claim(color_owner, color_owner, 0).unwrap();
    client.color_claim(color_owner, color_owner, 16777215).unwrap();

    let id = client
        .glyph_mint(seller, seller, palette(0), vec![0, 16777215], 45, String::new(), String::new())
        .unwrap();
    client.offer_sell_glyph(id, OfferBuy::Asset(FEE_SAC, 1000000000)).unwrap();
    client.offer_sell_asset(OfferSellAsset(buyer, FEE_SAC, 1000000000), id).unwrap();

    // seller is also the author: author credit plus remainder
    assert_eq!(client.royalties_get(seller, FEE_SAC), Ok(50000000 + 930000001));
    assert_eq!(client.royalties_get(color_owner, FEE_SAC), Ok(9876543 + 10123456));
    // conservation: the credits sum exactly to the sale amount
    assert_eq!(
        client.royalties_get(seller, FEE_SAC).unwrap()
            + client.royalties_get(color_owner, FEE_SAC).unwrap(),
        1000000000
    );
}

#[test]
fn test_royalty_zero_amount_sale() {
    // a sale at amount zero still credits the author one unit; the
    // seller's remainder absorbs it as a negative accrual
    let mut client = initialize(10, 2, 5);
    let author = 11;
    let seller = 12;
    let buyer = 13;

    let id = client
        .glyph_mint(author, seller, palette(0), vec![0, 16777215], 45, String::new(), String::new())
        .unwrap();
    client.offer_sell_glyph(id, OfferBuy::Asset(FEE_SAC, 0)).unwrap();
    client.offer_sell_asset(OfferSellAsset(buyer, FEE_SAC, 0), id).unwrap();

    assert_eq!(client.royalties_get(author, FEE_SAC), Ok(1));
    assert_eq!(client.royalties_get(seller, FEE_SAC), Ok(-1));
    assert_eq!(client.glyph_owner_get(id), Ok(buyer));
}

#[test]
fn test_royalties_claim_empty() {
    let mut client = initialize(10, 2, 5);
    assert_eq!(client.royalties_claim(11, FEE_SAC), Err(Error::NoRoyaltiesToClaim));
    assert_eq!(client.royalties_get(11, FEE_SAC), Ok(0));
}

#[test]
fn test_royalties_claim_resets() {
    let mut client = initialize(10, 2, 5);
    let id = client
        .glyph_mint(11, 11, palette(0), vec![0, 16777215], 45, String::new(), String::new())
        .unwrap();
    client.offer_sell_glyph(id, OfferBuy::Asset(FEE_SAC, 4000)).unwrap();
    client.offer_sell_asset(OfferSellAsset(12, FEE_SAC, 4000), id).unwrap();
    let payout = client.royalties_claim(11, FEE_SAC).unwrap();
    assert_eq!(payout.amount, 4000);
    assert_eq!(client.royalties_claim(11, FEE_SAC), Err(Error::NoRoyaltiesToClaim));
    assert_eq!(client.royalties_get(11, FEE_SAC), Ok(0));
}

#[test]
fn test_update_config() {
    let mut client = initialize(10, 2, 5);
    client.update(None, None, Some(3), Some(25), None, None).unwrap();
    let fee = client.color_claim(11, 11, 9).unwrap();
    assert_eq!(fee, Transfer { from: 11, to: 3, sac: FEE_SAC, amount: 25 });
}

#[test]
fn test_event_body() {
    let body = Body::new(vec![String::from("AAAA"), String::from("BBBB")], String::from("AQID"));
    assert_eq!(body.topics.len(), 2);
    assert_eq!(body.data, "AQID");
}
