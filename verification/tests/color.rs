use std::collections::HashMap;

use smol_sc::{Contract, Error, Transfer};

const ADMIN: u64 = 1;
const FEE_ADDRESS: u64 = 2;
const FEE_SAC: u64 = 100;
const CONTRACT_ID: u64 = 1000;

fn initialize(mine_fee: i128, color_rate: i128, author_rate: i128) -> Contract {
    Contract::__constructor(ADMIN, FEE_SAC, FEE_ADDRESS, mine_fee, color_rate, author_rate, CONTRACT_ID)
}

fn apply_transfer(balances: &mut HashMap<u64, i128>, t: Transfer) {
    *balances.entry(t.from).or_insert(0) -= t.amount;
    *balances.entry(t.to).or_insert(0) += t.amount;
}

fn balance(balances: &HashMap<u64, i128>, who: u64) -> i128 {
    *balances.get(&who).unwrap_or(&0)
}

#[test]
fn test_color_claim() {
    let mine_fee = 250_0000000;
    let glyph_fee = 1_0000000;
    let color_owner_royalty_rate = 2;
    let glyph_author_royalty_rate = 5;

    let mut client = initialize(mine_fee, color_owner_royalty_rate, glyph_author_royalty_rate);
    let mut balances: HashMap<u64, i128> = HashMap::new();

    let user = 11;
    balances.insert(user, mine_fee + glyph_fee);

    let fee = client.color_claim(user, user, 0x0000FF).unwrap();
    apply_transfer(&mut balances, fee);

    assert_eq!(client.color_owner_get(0x0000FF), Ok(user));
    assert_eq!(balance(&balances, user), glyph_fee);
    assert_eq!(balance(&balances, FEE_ADDRESS), mine_fee);
}

#[test]
fn test_color_owner_transfer() {
    let mine_fee = 250_0000000;
    let mut client = initialize(mine_fee, 2, 5);
    let mut balances: HashMap<u64, i128> = HashMap::new();

    let user_1 = 11;
    let user_2 = 12;
    balances.insert(user_1, mine_fee);

    let fee = client.color_claim(user_1, user_1, 0x00FF00).unwrap();
    apply_transfer(&mut balances, fee);
    assert_eq!(client.color_owner_get(0x00FF00), Ok(user_1));

    client.color_owner_transfer(0x00FF00, user_2).unwrap();
    assert_eq!(client.color_owner_get(0x00FF00), Ok(user_2));

    assert_eq!(client.color_owner_transfer(0x0000AA, user_2), Err(Error::ColorNotClaimed));
}
