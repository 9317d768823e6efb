use smol_sc::{Contract, Error};

const ADMIN: u64 = 1;
const FEE_ADDRESS: u64 = 2;
const FEE_SAC: u64 = 100;
const CONTRACT_ID: u64 = 1000;

const GLYPH_SIZE: usize = 45 * 45;

fn initialize(mine_fee: i128, color_rate: i128, author_rate: i128) -> Contract {
    Contract::__constructor(ADMIN, FEE_SAC, FEE_ADDRESS, mine_fee, color_rate, author_rate, CONTRACT_ID)
}

/// A full-size two-color palette: `variant` shifts where the second color
/// starts, so different variants yield different glyphs.
fn palette(variant: usize) -> Vec<u8> {
    let mut pixels = vec![0u8; GLYPH_SIZE];
    for i in (1000 + variant)..GLYPH_SIZE {
        pixels[i] = 1;
    }
    pixels
}

fn mint(client: &mut Contract, author: u64, owner: u64, variant: usize) -> u32 {
    client
        .glyph_mint(
            author,
            owner,
            palette(variant),
            vec![0, 16777215],
            45,
            String::from("Hello World"),
            String::from("Lorem Ipsum"),
        )
        .unwrap()
}

#[test]
fn test_glyph_mint() {
    let mine_fee = 250_0000000;
    let glyph_fee = 1_0000000;
    let color_owner_royalty_rate = 2;
    let glyph_author_royalty_rate = 5;

    let mut client = initialize(mine_fee, color_owner_royalty_rate, glyph_author_royalty_rate);

    let user = 11;
    let _user_balance: i128 = glyph_fee;

    let glyph_index = mint(&mut client, user, user, 0);

    assert_eq!(glyph_index, 1);

    let glyph = client.glyph_get(glyph_index).unwrap();
    println!("{:?}", (glyph.author, glyph.width, glyph.colors.len()));
    assert_eq!(glyph.author, user);
    assert_eq!(glyph.width, 45);
    assert_eq!(glyph.colors, palette(0));
    assert_eq!(glyph.legend, vec![0, 16777215]);
}

#[test]
fn test_glyph_owner_transfer() {
    let mut client = initialize(250_0000000, 2, 5);

    let user_1 = 11;
    let user_2 = 12;

    let glyph_index = mint(&mut client, user_1, user_1, 0);
    assert_eq!(client.glyph_owner_get(glyph_index), Ok(user_1));

    client.glyph_owner_transfer(glyph_index, user_2).unwrap();
    assert_eq!(client.glyph_owner_get(glyph_index), Ok(user_2));

    assert_eq!(client.glyph_owner_transfer(99, user_2), Err(Error::GlyphNotMinted));
}
