//! The marketplace itself: a pure state machine over plain values.
//!
//! Principals and asset addresses are `u64` identifiers, colors are 24-bit
//! integers, glyph identifiers are the integers 1, 2, 3, ... in minting
//! order. Every operation that moves real funds returns a `Transfer`
//! instruction; the surrounding host executes it and must roll the whole
//! operation back if the transfer fails. Proving a caller's authority over
//! a principal is likewise the host's duty and happens before an operation
//! is invoked.

use vstd::prelude::*;
use crate::error::Error;
use crate::glyph::{glyph_hash, hash_glyph, Glyph, GlyphAbs, MAX_GLYPH_SIZE};
use crate::offer::{
    copy_offers, copy_owners, offer_search, offer_set_insert, offer_set_remove,
    owner_queue_insert, owner_queue_remove, owner_search, queue_tail, sorted_offers,
    sorted_owners, OfferBuy, OfferSellAsset, OfferSellAssetGet,
};
use crate::royalty::{
    apply_credits, apply_credits_store, compute_credits, credits_fit, split_credits,
    split_defined, split_fits, RoyaltyKey,
};
use crate::store::{Store, StoreKey};

verus! {

/// A key of the asset-sell offer book: the glyph wanted, the asset
/// offered, and the amount offered. Each queued buyer under one key has
/// escrowed exactly that amount of that asset.
#[derive(Clone, Copy)]
pub struct AssetOfferKey {
    pub glyph: u32,
    pub sac: u64,
    pub amount: i128,
}

impl StoreKey for AssetOfferKey {
    type Abs = (u32, u64, i128);

    open spec fn abs(self) -> (u32, u64, i128) {
        (self.glyph, self.sac, self.amount)
    }

    fn key_eq(&self, other: &Self) -> (r: bool) {
        self.glyph == other.glyph && self.sac == other.sac && self.amount == other.amount
    }
}

/// An instruction to move `amount` of the asset `sac` from `from` to
/// `to`. The host must execute it; if the transfer fails, the whole
/// operation that returned it must be rolled back.
#[derive(Clone, Copy, Debug, PartialEq, Eq, Structural)]
pub struct Transfer {
    pub from: u64,
    pub to: u64,
    pub sac: u64,
    pub amount: i128,
}

/// The marketplace state: configuration, the color and glyph registries,
/// the two offer books, and the royalty ledger.
pub struct Contract {
    admin: u64,
    fee_sac: u64,
    fee_address: u64,
    color_claim_fee: i128,
    color_owner_royalty_rate: i128,
    glyph_author_royalty_rate: i128,
    contract_address: u64,
    glyph_index: u32,
    color_owners: Store<u32, u64>,
    glyph_hashes: Store<Vec<u8>, u32>,
    glyph_records: Store<u32, Glyph>,
    glyph_owners: Store<u32, u64>,
    glyph_offers: Store<u32, Vec<OfferBuy>>,
    asset_offers: Store<AssetOfferKey, Vec<u64>>,
    royalty_store: Store<RoyaltyKey, i128>,
}

/// Idempotence of identity: a mint that succeeded leaves a state in which
/// minting the same pixels and width again is rejected as already minted.
pub proof fn lemma_mint_idempotent(
    before: Contract,
    after: Contract,
    pixels: Seq<u8>,
    width: u32,
    id: u32,
)
    requires
        before.mint_outcome(pixels, width) == Ok::<u32, Error>(id),
        after.hash_index() == before.hash_index().insert(glyph_hash(pixels, width), id),
    ensures
        after.mint_outcome(pixels, width) == Err::<u32, Error>(Error::GlyphAlreadyMinted),
{
}

/// Sorted-set invariants: in a well-formed state every sell-glyph offer
/// set is strictly sorted by the explicit offer order, so it holds no
/// duplicate offer value.
pub proof fn lemma_offer_sets_sorted(s: Contract, g: u32)
    requires
        s.wf(),
    ensures
        sorted_offers(s.offer_list(g)),
        forall|i: int, j: int|
            0 <= i < j < s.offer_list(g).len() ==> s.offer_list(g)[i] != s.offer_list(g)[j],
{
    let l = s.offer_list(g);
    assert forall|i: int, j: int| 0 <= i < j < l.len() implies l[i] != l[j] by {
        crate::offer::lemma_offer_order_total(l[i], l[j]);
    }
}

/// Sorted-set invariants for buyer queues: in a well-formed state every
/// queue of escrowed buyers is strictly sorted by principal, so no buyer
/// is queued twice and the head is the lowest-ordered buyer.
pub proof fn lemma_buyer_queues_sorted(s: Contract, g: u32, sac: u64, amount: i128)
    requires
        s.wf(),
    ensures
        sorted_owners(s.queue(g, sac, amount)),
        forall|i: int|
            0 < i < s.queue(g, sac, amount).len() ==> s.queue(g, sac, amount)[0] < #[trigger] s.queue(
                g,
                sac,
                amount,
            )[i],
{
}

/// Escrow correctness: the refund of a removed asset-sell offer exactly
/// reverses its escrow: the same amount of the same asset moves from
/// custody back to the original escrower, and to no one else.
pub proof fn lemma_escrow_refund_exact(s: Contract, owner: u64, sac: u64, amount: i128)
    ensures
        s.refund_transfer(owner, sac, amount).sac == s.escrow_transfer(owner, sac, amount).sac,
        s.refund_transfer(owner, sac, amount).amount == s.escrow_transfer(
            owner,
            sac,
            amount,
        ).amount,
        s.refund_transfer(owner, sac, amount).to == s.escrow_transfer(owner, sac, amount).from,
        s.refund_transfer(owner, sac, amount).from == s.escrow_transfer(owner, sac, amount).to,
{
}

/// The derived views of two states agree wherever the underlying tables
/// agree.
proof fn lemma_view_congruence(a: Contract, b: Contract)
    ensures
        a.glyph_records == b.glyph_records ==> a.glyphs() == b.glyphs(),
        a.glyph_offers == b.glyph_offers ==> a.sell_glyph_offers() == b.sell_glyph_offers(),
        a.asset_offers == b.asset_offers ==> a.sell_asset_offers() == b.sell_asset_offers(),
{
    if a.glyph_records == b.glyph_records {
        assert(a.glyphs() =~= b.glyphs());
    }
    if a.glyph_offers == b.glyph_offers {
        assert(a.sell_glyph_offers() =~= b.sell_glyph_offers());
    }
    if a.asset_offers == b.asset_offers {
        assert(a.sell_asset_offers() =~= b.sell_asset_offers());
    }
}

impl Contract {
    /// Color value to owning principal.
    pub closed spec fn colors(self) -> Map<u32, u64> {
        self.color_owners.as_map()
    }

    /// Content hash to glyph identifier.
    pub closed spec fn hash_index(self) -> Map<Seq<u8>, u32> {
        self.glyph_hashes.as_map()
    }

    /// Glyph identifier to glyph record.
    pub closed spec fn glyphs(self) -> Map<u32, GlyphAbs> {
        Map::new(
            |id: u32| self.glyph_records.as_map().contains_key(id),
            |id: u32| self.glyph_records.as_map()[id]@,
        )
    }

    /// Glyph identifier to owning principal.
    pub closed spec fn owners(self) -> Map<u32, u64> {
        self.glyph_owners.as_map()
    }

    /// Glyph identifier to its sorted sell-glyph offer set.
    pub closed spec fn sell_glyph_offers(self) -> Map<u32, Seq<OfferBuy>> {
        Map::new(
            |id: u32| self.glyph_offers.as_map().contains_key(id),
            |id: u32| self.glyph_offers.as_map()[id]@,
        )
    }

    /// (glyph, asset, amount) to the sorted queue of escrowed buyers.
    pub closed spec fn sell_asset_offers(self) -> Map<(u32, u64, i128), Seq<u64>> {
        Map::new(
            |k: (u32, u64, i128)| self.asset_offers.as_map().contains_key(k),
            |k: (u32, u64, i128)| self.asset_offers.as_map()[k]@,
        )
    }

    /// (principal, asset) to accrued royalties.
    pub closed spec fn royalties(self) -> Map<(u64, u64), i128> {
        self.royalty_store.as_map()
    }

    /// The number of glyphs minted so far; identifiers run from 1 to this.
    pub closed spec fn glyph_count(self) -> u32 {
        self.glyph_index
    }

    pub closed spec fn admin_principal(self) -> u64 {
        self.admin
    }

    pub closed spec fn fee_asset(self) -> u64 {
        self.fee_sac
    }

    pub closed spec fn fee_recipient(self) -> u64 {
        self.fee_address
    }

    pub closed spec fn fee_amount(self) -> i128 {
        self.color_claim_fee
    }

    pub closed spec fn color_rate(self) -> i128 {
        self.color_owner_royalty_rate
    }

    pub closed spec fn author_rate(self) -> i128 {
        self.glyph_author_royalty_rate
    }

    /// The marketplace's own principal, holding escrow and royalty custody.
    pub closed spec fn custody(self) -> u64 {
        self.contract_address
    }

    /// The sell-glyph offer set of a glyph, empty when none is stored.
    pub open spec fn offer_list(self, g: u32) -> Seq<OfferBuy> {
        if self.sell_glyph_offers().contains_key(g) {
            self.sell_glyph_offers()[g]
        } else {
            Seq::empty()
        }
    }

    /// The buyer queue of an asset-sell offer key, empty when none is
    /// stored.
    pub open spec fn queue(self, g: u32, sac: u64, amount: i128) -> Seq<u64> {
        if self.sell_asset_offers().contains_key((g, sac, amount)) {
            self.sell_asset_offers()[(g, sac, amount)]
        } else {
            Seq::empty()
        }
    }

    /// The accrued royalty balance of a principal for an asset.
    pub open spec fn royalty_of(self, owner: u64, sac: u64) -> i128 {
        if self.royalties().contains_key((owner, sac)) {
            self.royalties()[(owner, sac)]
        } else {
            0
        }
    }

    pub closed spec fn stores_wf(self) -> bool {
        &&& self.color_owners.wf()
        &&& self.glyph_hashes.wf()
        &&& self.glyph_records.wf()
        &&& self.glyph_owners.wf()
        &&& self.glyph_offers.wf()
        &&& self.asset_offers.wf()
        &&& self.royalty_store.wf()
    }

    /// Well-formedness of a marketplace state.
    pub open spec fn wf(self) -> bool {
        &&& self.stores_wf()
        &&& 0 <= self.color_rate()
        &&& 0 <= self.author_rate()
        &&& self.color_rate() + self.author_rate() <= 100
        &&& 0 <= self.fee_amount()
        &&& forall|id: u32|
            #[trigger] self.glyphs().contains_key(id) ==> 1 <= id <= self.glyph_count()
                && self.glyphs()[id].colors.len() <= MAX_GLYPH_SIZE
        &&& forall|id: u32|
            #![trigger self.owners().contains_key(id)]
            #![trigger self.glyphs().contains_key(id)]
            self.owners().contains_key(id) <==> self.glyphs().contains_key(id)
        &&& forall|id: u32|
            #[trigger] self.sell_glyph_offers().contains_key(id) ==> sorted_offers(
                self.sell_glyph_offers()[id],
            ) && self.glyphs().contains_key(id)
        &&& forall|k: (u32, u64, i128)|
            #[trigger] self.sell_asset_offers().contains_key(k) ==> sorted_owners(
                self.sell_asset_offers()[k],
            ) && k.2 >= 0
    }

    /// Fit conditions for a sale of glyph `g` at `amount` of `sac`: the
    /// royalty split is defined and every accrual stays within `i128`.
    pub open spec fn sale_ok(self, g: u32, sac: u64, amount: i128) -> bool {
        let glyph = self.glyphs()[g];
        let seller = self.owners()[g];
        &&& split_defined(glyph, self.colors())
        &&& split_fits(
            glyph,
            self.colors(),
            amount as int,
            self.author_rate() as int,
            self.color_rate() as int,
        )
        &&& credits_fit(
            self.royalties(),
            split_credits(
                glyph,
                self.colors(),
                seller,
                amount as int,
                self.author_rate() as int,
                self.color_rate() as int,
            ),
            sac,
        )
    }

    /// The configuration of two states agrees.
    pub open spec fn same_config(self, o: Contract) -> bool {
        &&& self.admin_principal() == o.admin_principal()
        &&& self.fee_asset() == o.fee_asset()
        &&& self.fee_recipient() == o.fee_recipient()
        &&& self.fee_amount() == o.fee_amount()
        &&& self.color_rate() == o.color_rate()
        &&& self.author_rate() == o.author_rate()
        &&& self.custody() == o.custody()
    }

    /// Everything but the sell-glyph offer book agrees with `o`.
    pub open spec fn unchanged_but_glyph_offers(self, o: Contract) -> bool {
        &&& self.same_config(o)
        &&& self.glyph_count() == o.glyph_count()
        &&& self.colors() == o.colors()
        &&& self.hash_index() == o.hash_index()
        &&& self.glyphs() == o.glyphs()
        &&& self.owners() == o.owners()
        &&& self.sell_asset_offers() == o.sell_asset_offers()
        &&& self.royalties() == o.royalties()
    }

    /// Everything but the asset-sell offer book agrees with `o`.
    pub open spec fn unchanged_but_asset_offers(self, o: Contract) -> bool {
        &&& self.same_config(o)
        &&& self.glyph_count() == o.glyph_count()
        &&& self.colors() == o.colors()
        &&& self.hash_index() == o.hash_index()
        &&& self.glyphs() == o.glyphs()
        &&& self.owners() == o.owners()
        &&& self.sell_glyph_offers() == o.sell_glyph_offers()
        &&& self.royalties() == o.royalties()
    }

    /// The escrow instruction of an asset-sell offer: the buyer funds the
    /// marketplace's custody.
    pub open spec fn escrow_transfer(self, owner: u64, sac: u64, amount: i128) -> Transfer {
        Transfer { from: owner, to: self.custody(), sac: sac, amount: amount }
    }

    /// The refund instruction of a removed asset-sell offer: custody funds
    /// the original escrower.
    pub open spec fn refund_transfer(self, owner: u64, sac: u64, amount: i128) -> Transfer {
        Transfer { from: self.custody(), to: owner, sac: sac, amount: amount }
    }

    /// Set up a marketplace. Initialization and administration are the
    /// host's domain: it must pick rates that total at most one hundred
    /// percent and a non-negative claim fee.
    pub fn __constructor(
        admin: u64,
        fee_sac: u64,
        fee_address: u64,
        color_claim_fee: i128,
        color_owner_royalty_rate: i128,
        glyph_author_royalty_rate: i128,
        contract_address: u64,
    ) -> (r: Contract)
        requires
            0 <= color_claim_fee,
            0 <= color_owner_royalty_rate,
            0 <= glyph_author_royalty_rate,
            color_owner_royalty_rate + glyph_author_royalty_rate <= 100,
        ensures
            r.wf(),
            r.admin_principal() == admin,
            r.fee_asset() == fee_sac,
            r.fee_recipient() == fee_address,
            r.fee_amount() == color_claim_fee,
            r.color_rate() == color_owner_royalty_rate,
            r.author_rate() == glyph_author_royalty_rate,
            r.custody() == contract_address,
            r.glyph_count() == 0,
            r.colors() == Map::<u32, u64>::empty(),
            r.hash_index() == Map::<Seq<u8>, u32>::empty(),
            r.glyphs() == Map::<u32, GlyphAbs>::empty(),
            r.owners() == Map::<u32, u64>::empty(),
            r.sell_glyph_offers() == Map::<u32, Seq<OfferBuy>>::empty(),
            r.sell_asset_offers() == Map::<(u32, u64, i128), Seq<u64>>::empty(),
            r.royalties() == Map::<(u64, u64), i128>::empty(),
    {
        let r = Contract {
            admin: admin,
            fee_sac: fee_sac,
            fee_address: fee_address,
            color_claim_fee: color_claim_fee,
            color_owner_royalty_rate: color_owner_royalty_rate,
            glyph_author_royalty_rate: glyph_author_royalty_rate,
            contract_address: contract_address,
            glyph_index: 0,
            color_owners: Store::new(),
            glyph_hashes: Store::new(),
            glyph_records: Store::new(),
            glyph_owners: Store::new(),
            glyph_offers: Store::new(),
            asset_offers: Store::new(),
            royalty_store: Store::new(),
        };
        proof {
            assert(r.glyphs() =~= Map::<u32, GlyphAbs>::empty());
            assert(r.sell_glyph_offers() =~= Map::<u32, Seq<OfferBuy>>::empty());
            assert(r.sell_asset_offers() =~= Map::<(u32, u64, i128), Seq<u64>>::empty());
        }
        r
    }

    /// Update part of the configuration; a `None` leaves a value as it is.
    /// The host authorizes the administrator and must keep the rates and
    /// fee within their configured bounds.
    pub fn update(
        &mut self,
        admin: Option<u64>,
        fee_sac: Option<u64>,
        fee_address: Option<u64>,
        color_claim_fee: Option<i128>,
        color_owner_royalty_rate: Option<i128>,
        glyph_author_royalty_rate: Option<i128>,
    ) -> (r: Result<(), Error>)
        requires
            old(self).wf(),
            0 <= (match color_claim_fee {
                Some(f) => f,
                None => old(self).fee_amount(),
            }),
            0 <= (match color_owner_royalty_rate {
                Some(c) => c,
                None => old(self).color_rate(),
            }),
            0 <= (match glyph_author_royalty_rate {
                Some(a) => a,
                None => old(self).author_rate(),
            }),
            (match color_owner_royalty_rate {
                Some(c) => c,
                None => old(self).color_rate(),
            }) + (match glyph_author_royalty_rate {
                Some(a) => a,
                None => old(self).author_rate(),
            }) <= 100,
        ensures
            final(self).wf(),
            r == Ok::<(), Error>(()),
            final(self).admin_principal() == (match admin {
                Some(a) => a,
                None => old(self).admin_principal(),
            }),
            final(self).fee_asset() == (match fee_sac {
                Some(s) => s,
                None => old(self).fee_asset(),
            }),
            final(self).fee_recipient() == (match fee_address {
                Some(a) => a,
                None => old(self).fee_recipient(),
            }),
            final(self).fee_amount() == (match color_claim_fee {
                Some(f) => f,
                None => old(self).fee_amount(),
            }),
            final(self).color_rate() == (match color_owner_royalty_rate {
                Some(c) => c,
                None => old(self).color_rate(),
            }),
            final(self).author_rate() == (match glyph_author_royalty_rate {
                Some(a) => a,
                None => old(self).author_rate(),
            }),
            final(self).custody() == old(self).custody(),
            final(self).glyph_count() == old(self).glyph_count(),
            final(self).colors() == old(self).colors(),
            final(self).hash_index() == old(self).hash_index(),
            final(self).glyphs() == old(self).glyphs(),
            final(self).owners() == old(self).owners(),
            final(self).sell_glyph_offers() == old(self).sell_glyph_offers(),
            final(self).sell_asset_offers() == old(self).sell_asset_offers(),
            final(self).royalties() == old(self).royalties(),
    {
        if let Some(a) = admin {
            self.admin = a;
        }
        if let Some(s) = fee_sac {
            self.fee_sac = s;
        }
        if let Some(a) = fee_address {
            self.fee_address = a;
        }
        if let Some(f) = color_claim_fee {
            self.color_claim_fee = f;
        }
        if let Some(c) = color_owner_royalty_rate {
            self.color_owner_royalty_rate = c;
        }
        if let Some(a) = glyph_author_royalty_rate {
            self.glyph_author_royalty_rate = a;
        }
        proof {
            lemma_view_congruence(*self, *old(self));
        }
        Ok(())
    }

    /// Claim an unclaimed color for `owner`; `source` pays the configured
    /// claim fee to the configured fee recipient.
    pub fn color_claim(&mut self, source: u64, owner: u64, color: u32) -> (r: Result<
        Transfer,
        Error,
    >)
        requires
            old(self).wf(),
        ensures
            final(self).wf(),
            color > 0xFFFFFF ==> {
                &&& r == Err::<Transfer, Error>(Error::ColorOutOfRange)
                &&& *final(self) == *old(self)
            },
            color <= 0xFFFFFF && old(self).colors().contains_key(color) ==> {
                &&& r == Err::<Transfer, Error>(Error::ColorAlreadyClaimed)
                &&& *final(self) == *old(self)
            },
            color <= 0xFFFFFF && !old(self).colors().contains_key(color) ==> {
                &&& r == Ok::<Transfer, Error>(
                    Transfer {
                        from: source,
                        to: old(self).fee_recipient(),
                        sac: old(self).fee_asset(),
                        amount: old(self).fee_amount(),
                    },
                )
                &&& final(self).colors() == old(self).colors().insert(color, owner)
                &&& final(self).same_config(*old(self))
                &&& final(self).glyph_count() == old(self).glyph_count()
                &&& final(self).hash_index() == old(self).hash_index()
                &&& final(self).glyphs() == old(self).glyphs()
                &&& final(self).owners() == old(self).owners()
                &&& final(self).sell_glyph_offers() == old(self).sell_glyph_offers()
                &&& final(self).sell_asset_offers() == old(self).sell_asset_offers()
                &&& final(self).royalties() == old(self).royalties()
            },
    {
        if color > 0xFFFFFF {
            return Err(Error::ColorOutOfRange);
        }
        if self.color_owners.contains(&color) {
            return Err(Error::ColorAlreadyClaimed);
        }
        self.color_owners.set(color, owner);
        proof {
            lemma_view_congruence(*self, *old(self));
        }
        Ok(
            Transfer {
                from: source,
                to: self.fee_address,
                sac: self.fee_sac,
                amount: self.color_claim_fee,
            },
        )
    }

    /// The owner of a claimed color.
    pub fn color_owner_get(&self, color: u32) -> (r: Result<u64, Error>)
        requires
            self.wf(),
        ensures
            self.colors().contains_key(color) ==> r == Ok::<u64, Error>(self.colors()[color]),
            !self.colors().contains_key(color) ==> r == Err::<u64, Error>(Error::ColorNotClaimed),
    {
        match self.color_owners.get(&color) {
            Some(o) => Ok(*o),
            None => Err(Error::ColorNotClaimed),
        }
    }

    /// Transfer a claimed color to a new owner. The host authorizes the
    /// current owner.
    pub fn color_owner_transfer(&mut self, color: u32, to: u64) -> (r: Result<(), Error>)
        requires
            old(self).wf(),
        ensures
            final(self).wf(),
            !old(self).colors().contains_key(color) ==> {
                &&& r == Err::<(), Error>(Error::ColorNotClaimed)
                &&& *final(self) == *old(self)
            },
            old(self).colors().contains_key(color) ==> {
                &&& r == Ok::<(), Error>(())
                &&& final(self).colors() == old(self).colors().insert(color, to)
                &&& final(self).same_config(*old(self))
                &&& final(self).glyph_count() == old(self).glyph_count()
                &&& final(self).hash_index() == old(self).hash_index()
                &&& final(self).glyphs() == old(self).glyphs()
                &&& final(self).owners() == old(self).owners()
                &&& final(self).sell_glyph_offers() == old(self).sell_glyph_offers()
                &&& final(self).sell_asset_offers() == old(self).sell_asset_offers()
                &&& final(self).royalties() == old(self).royalties()
            },
    {
        if !self.color_owners.contains(&color) {
            return Err(Error::ColorNotClaimed);
        }
        self.color_owners.set(color, to);
        proof {
            lemma_view_congruence(*self, *old(self));
        }
        Ok(())
    }

    /// What minting a glyph with the given pixels and width returns in a
    /// given state: too many pixels are rejected, a pair whose content
    /// hash is already registered is rejected, and otherwise the next
    /// identifier is assigned.
    pub open spec fn mint_outcome(self, pixels: Seq<u8>, width: u32) -> Result<u32, Error> {
        if pixels.len() > MAX_GLYPH_SIZE {
            Err(Error::GlyphTooBig)
        } else if self.hash_index().contains_key(glyph_hash(pixels, width)) {
            Err(Error::GlyphAlreadyMinted)
        } else {
            Ok((self.glyph_count() + 1) as u32)
        }
    }

    /// Mint a glyph: register its content hash, record it, and initialize
    /// its ownership. The title and story only feed the host's
    /// notification and are not retained.
    pub fn glyph_mint(
        &mut self,
        author: u64,
        owner: u64,
        colors: Vec<u8>,
        legend: Vec<u32>,
        width: u32,
        _title: String,
        _story: String,
    ) -> (r: Result<u32, Error>)
        requires
            old(self).wf(),
            old(self).glyph_count() < u32::MAX,
        ensures
            final(self).wf(),
            r == old(self).mint_outcome(colors@, width),
            r is Err ==> *final(self) == *old(self),
            r is Ok ==> {
                let id = (old(self).glyph_count() + 1) as u32;
                &&& final(self).glyph_count() == id
                &&& final(self).hash_index() == old(self).hash_index().insert(
                    glyph_hash(colors@, width),
                    id,
                )
                &&& final(self).glyphs() == old(self).glyphs().insert(
                    id,
                    GlyphAbs { author: author, colors: colors@, legend: legend@, width: width },
                )
                &&& final(self).owners() == old(self).owners().insert(id, owner)
                &&& final(self).same_config(*old(self))
                &&& final(self).colors() == old(self).colors()
                &&& final(self).sell_glyph_offers() == old(self).sell_glyph_offers()
                &&& final(self).sell_asset_offers() == old(self).sell_asset_offers()
                &&& final(self).royalties() == old(self).royalties()
            },
    {
        if colors.len() > MAX_GLYPH_SIZE {
            return Err(Error::GlyphTooBig);
        }
        let hash = hash_glyph(&colors, width);
        if self.glyph_hashes.contains(&hash) {
            return Err(Error::GlyphAlreadyMinted);
        }
        let glyph_index = self.glyph_index + 1;
        self.glyph_index = glyph_index;
        self.glyph_hashes.set(hash, glyph_index);
        let glyph = Glyph { author: author, colors: colors, legend: legend, width: width };
        self.glyph_records.set(glyph_index, glyph);
        self.glyph_owners.set(glyph_index, owner);
        proof {
            lemma_view_congruence(*self, *old(self));
            assert(self.glyphs() =~= old(self).glyphs().insert(
                glyph_index,
                GlyphAbs { author: author, colors: colors@, legend: legend@, width: width },
            ));
        }
        Ok(glyph_index)
    }

    /// The record of a minted glyph.
    pub fn glyph_get(&self, glyph_index: u32) -> (r: Result<Glyph, Error>)
        requires
            self.wf(),
        ensures
            match r {
                Ok(g) => self.glyphs().contains_key(glyph_index) && g@ == self.glyphs()[
                    glyph_index
                ],
                Err(e) => !self.glyphs().contains_key(glyph_index) && e == Error::GlyphNotMinted,
            },
    {
        match self.glyph_records.get(&glyph_index) {
            Some(g) => Ok(g.duplicate()),
            None => Err(Error::GlyphNotMinted),
        }
    }

    /// The owner of a minted glyph.
    pub fn glyph_owner_get(&self, glyph_index: u32) -> (r: Result<u64, Error>)
        requires
            self.wf(),
        ensures
            self.owners().contains_key(glyph_index) ==> r == Ok::<u64, Error>(
                self.owners()[glyph_index],
            ),
            !self.owners().contains_key(glyph_index) ==> r == Err::<u64, Error>(
                Error::GlyphNotMinted,
            ),
    {
        match self.glyph_owners.get(&glyph_index) {
            Some(o) => Ok(*o),
            None => Err(Error::GlyphNotMinted),
        }
    }

    /// Transfer a minted glyph to a new owner. The host authorizes the
    /// current owner.
    pub fn glyph_owner_transfer(&mut self, glyph_index: u32, to: u64) -> (r: Result<(), Error>)
        requires
            old(self).wf(),
        ensures
            final(self).wf(),
            !old(self).owners().contains_key(glyph_index) ==> {
                &&& r == Err::<(), Error>(Error::GlyphNotMinted)
                &&& *final(self) == *old(self)
            },
            old(self).owners().contains_key(glyph_index) ==> {
                &&& r == Ok::<(), Error>(())
                &&& final(self).owners() == old(self).owners().insert(glyph_index, to)
                &&& final(self).same_config(*old(self))
                &&& final(self).glyph_count() == old(self).glyph_count()
                &&& final(self).colors() == old(self).colors()
                &&& final(self).hash_index() == old(self).hash_index()
                &&& final(self).glyphs() == old(self).glyphs()
                &&& final(self).sell_glyph_offers() == old(self).sell_glyph_offers()
                &&& final(self).sell_asset_offers() == old(self).sell_asset_offers()
                &&& final(self).royalties() == old(self).royalties()
            },
    {
        if !self.glyph_owners.contains(&glyph_index) {
            return Err(Error::GlyphNotMinted);
        }
        self.glyph_owners.set(glyph_index, to);
        proof {
            lemma_view_congruence(*self, *old(self));
        }
        Ok(())
    }

    /// Query the sell-glyph offer set of a glyph: with a specific offer,
    /// its rank within the sorted set; without one, the set's size, with
    /// an empty set signaled as `None`.
    pub fn offer_sell_glyph_get(&self, sell: u32, buy: Option<OfferBuy>) -> (r: Result<
        Option<u32>,
        Error,
    >)
        requires
            self.wf(),
        ensures
            match buy {
                Some(b) => {
                    if self.offer_list(sell).contains(b) {
                        r matches Ok(o) && o matches Some(i) && exists|j: int|
                            0 <= j < self.offer_list(sell).len() && self.offer_list(sell)[j] == b
                                && i == j as u32
                    } else {
                        r == Ok::<Option<u32>, Error>(None)
                    }
                },
                None => {
                    if self.offer_list(sell).len() == 0 {
                        r == Ok::<Option<u32>, Error>(None)
                    } else {
                        r == Ok::<Option<u32>, Error>(
                            Some(self.offer_list(sell).len() as u32),
                        )
                    }
                },
            },
    {
        match self.glyph_offers.get(&sell) {
            Some(offers) => {
                proof {
                    assert(self.sell_glyph_offers().contains_key(sell));
                    assert(self.sell_glyph_offers()[sell] == offers@);
                }
                match buy {
                    Some(b) => {
                        match offer_search(offers, b) {
                            Ok(i) => Ok(Some(i as u32)),
                            Err(_) => Ok(None),
                        }
                    },
                    None => {
                        if offers.len() == 0 {
                            Ok(None)
                        } else {
                            Ok(Some(offers.len() as u32))
                        }
                    },
                }
            },
            None => Ok(None),
        }
    }

    /// Query the buyer queue of an asset-sell offer key: with a specific
    /// buyer, the buyer's rank; without one, the queue's size, with an
    /// empty queue signaled as `None`.
    pub fn offer_sell_asset_get(&self, sell: OfferSellAssetGet, buy: u32) -> (r: Result<
        Option<u32>,
        Error,
    >)
        requires
            self.wf(),
        ensures
            match sell.0 {
                Some(owner) => {
                    if self.queue(buy, sell.1, sell.2).contains(owner) {
                        r matches Ok(o) && o matches Some(i) && exists|j: int|
                            0 <= j < self.queue(buy, sell.1, sell.2).len() && self.queue(
                                buy,
                                sell.1,
                                sell.2,
                            )[j] == owner && i == j as u32
                    } else {
                        r == Ok::<Option<u32>, Error>(None)
                    }
                },
                None => {
                    if self.queue(buy, sell.1, sell.2).len() == 0 {
                        r == Ok::<Option<u32>, Error>(None)
                    } else {
                        r == Ok::<Option<u32>, Error>(
                            Some(self.queue(buy, sell.1, sell.2).len() as u32),
                        )
                    }
                },
            },
    {
        let OfferSellAssetGet(owner_opt, sac, amount) = sell;
        let key = AssetOfferKey { glyph: buy, sac: sac, amount: amount };
        match self.asset_offers.get(&key) {
            Some(offers) => {
                proof {
                    assert(self.sell_asset_offers().contains_key((buy, sac, amount)));
                    assert(self.sell_asset_offers()[(buy, sac, amount)] == offers@);
                }
                match owner_opt {
                    Some(owner) => {
                        match owner_search(offers, owner) {
                            Ok(i) => Ok(Some(i as u32)),
                            Err(_) => Ok(None),
                        }
                    },
                    None => {
                        if offers.len() == 0 {
                            Ok(None)
                        } else {
                            Ok(Some(offers.len() as u32))
                        }
                    },
                }
            },
            None => Ok(None),
        }
    }

    /// Remove one sell-glyph offer, or clear a glyph's whole sell-glyph
    /// offer set when no specific offer is given. The host authorizes the
    /// glyph's owner.
    pub fn offer_sell_glyph_remove(&mut self, sell: u32, buy: Option<OfferBuy>) -> (r: Result<
        (),
        Error,
    >)
        requires
            old(self).wf(),
        ensures
            final(self).wf(),
            !old(self).owners().contains_key(sell) ==> {
                &&& r == Err::<(), Error>(Error::GlyphNotMinted)
                &&& *final(self) == *old(self)
            },
            old(self).owners().contains_key(sell) ==> match buy {
                Some(b) => {
                    if old(self).offer_list(sell).contains(b) {
                        &&& r == Ok::<(), Error>(())
                        &&& sorted_offers(final(self).offer_list(sell))
                        &&& forall|y: OfferBuy|
                            final(self).offer_list(sell).contains(y) <==> old(self).offer_list(
                                sell,
                            ).contains(y) && y != b
                        &&& final(self).sell_glyph_offers().remove(sell) == old(
                            self,
                        ).sell_glyph_offers().remove(sell)
                        &&& final(self).unchanged_but_glyph_offers(*old(self))
                    } else {
                        &&& r == Err::<(), Error>(Error::OfferNotFound)
                        &&& *final(self) == *old(self)
                    }
                },
                None => {
                    &&& r == Ok::<(), Error>(())
                    &&& final(self).sell_glyph_offers() == old(self).sell_glyph_offers().remove(
                        sell,
                    )
                    &&& final(self).offer_list(sell).len() == 0
                    &&& final(self).unchanged_but_glyph_offers(*old(self))
                },
            },
    {
        if !self.glyph_owners.contains(&sell) {
            return Err(Error::GlyphNotMinted);
        }
        match buy {
            Some(b) => {
                let mut offers: Vec<OfferBuy> = match self.glyph_offers.get(&sell) {
                    Some(l) => copy_offers(l),
                    None => Vec::new(),
                };
                proof {
                    if self.sell_glyph_offers().contains_key(sell) {
                        assert(self.sell_glyph_offers()[sell] == offers@);
                    }
                    assert(offers@ == old(self).offer_list(sell));
                }
                match offer_set_remove(&mut offers, b) {
                    Some(_) => {
                        self.glyph_offers.set(sell, offers);
                        proof {
                            lemma_view_congruence(*self, *old(self));
                            assert(final(self).sell_glyph_offers().remove(sell) =~= old(
                                self,
                            ).sell_glyph_offers().remove(sell));
                        }
                        Ok(())
                    },
                    None => Err(Error::OfferNotFound),
                }
            },
            None => {
                self.glyph_offers.remove(&sell);
                proof {
                    lemma_view_congruence(*self, *old(self));
                    assert(final(self).sell_glyph_offers() =~= old(
                        self,
                    ).sell_glyph_offers().remove(sell));
                }
                Ok(())
            },
        }
    }

    /// Remove a queued asset-sell offer and refund the escrowed amount to
    /// the escrower. The host authorizes the escrower and executes the
    /// refund.
    pub fn offer_sell_asset_remove(&mut self, sell: OfferSellAsset, buy: u32) -> (r: Result<
        Transfer,
        Error,
    >)
        requires
            old(self).wf(),
        ensures
            final(self).wf(),
            !old(self).queue(buy, sell.1, sell.2).contains(sell.0) ==> {
                &&& r == Err::<Transfer, Error>(Error::OfferNotFound)
                &&& *final(self) == *old(self)
            },
            old(self).queue(buy, sell.1, sell.2).contains(sell.0) ==> {
                &&& r == Ok::<Transfer, Error>(
                    old(self).refund_transfer(sell.0, sell.1, sell.2),
                )
                &&& sorted_owners(final(self).queue(buy, sell.1, sell.2))
                &&& forall|y: u64|
                    final(self).queue(buy, sell.1, sell.2).contains(y) <==> old(self).queue(
                        buy,
                        sell.1,
                        sell.2,
                    ).contains(y) && y != sell.0
                &&& final(self).sell_asset_offers().remove((buy, sell.1, sell.2)) == old(
                    self,
                ).sell_asset_offers().remove((buy, sell.1, sell.2))
                &&& final(self).unchanged_but_asset_offers(*old(self))
            },
    {
        let OfferSellAsset(owner, sac, amount) = sell;
        let key = AssetOfferKey { glyph: buy, sac: sac, amount: amount };
        let mut offers: Vec<u64> = match self.asset_offers.get(&key) {
            Some(l) => copy_owners(l),
            None => Vec::new(),
        };
        proof {
            if self.sell_asset_offers().contains_key((buy, sac, amount)) {
                assert(self.sell_asset_offers()[(buy, sac, amount)] == offers@);
            }
            assert(offers@ == old(self).queue(buy, sac, amount));
        }
        match owner_queue_remove(&mut offers, owner) {
            Some(_) => {
                self.asset_offers.set(key, offers);
                proof {
                    lemma_view_congruence(*self, *old(self));
                    assert(final(self).sell_asset_offers().remove((buy, sac, amount)) =~= old(
                        self,
                    ).sell_asset_offers().remove((buy, sac, amount)));
                }
                Ok(Transfer { from: self.contract_address, to: owner, sac: sac, amount: amount })
            },
            None => Err(Error::OfferNotFound),
        }
    }

    /// The outcome of queueing a sell-glyph offer that matched nothing:
    /// a duplicate is rejected and nothing changes; otherwise the offer
    /// now stands in the glyph's sorted offer set.
    pub open spec fn offer_insert_post(
        self,
        o: Contract,
        sell: u32,
        buy: OfferBuy,
        r: Result<Option<u64>, Error>,
    ) -> bool {
        if o.offer_list(sell).contains(buy) {
            &&& r == Err::<Option<u64>, Error>(Error::OfferDuplicate)
            &&& self == o
        } else {
            &&& r == Ok::<Option<u64>, Error>(None)
            &&& sorted_offers(self.offer_list(sell))
            &&& forall|y: OfferBuy|
                self.offer_list(sell).contains(y) <==> o.offer_list(sell).contains(y) || y == buy
            &&& self.sell_glyph_offers().remove(sell) == o.sell_glyph_offers().remove(sell)
            &&& self.unchanged_but_glyph_offers(o)
        }
    }

    /// A buyer escrows `sell.2` of asset `sell.1` for glyph `buy`. If the
    /// glyph's owner already offers it for exactly that asset and amount,
    /// the trade executes at once: the royalty split is accrued, the glyph
    /// changes owner, and every sell-glyph offer on it is purged.
    /// Otherwise the buyer joins the sorted queue for that key. In both
    /// cases the returned instruction escrows the amount into custody; the
    /// host executes it and authorizes the buyer.
    pub fn offer_sell_asset(&mut self, sell: OfferSellAsset, buy: u32) -> (r: Result<
        (Option<()>, Transfer),
        Error,
    >)
        requires
            old(self).wf(),
            sell.2 >= 0,
            old(self).offer_list(buy).contains(OfferBuy::Asset(sell.1, sell.2)) ==> old(
                self,
            ).sale_ok(buy, sell.1, sell.2),
        ensures
            final(self).wf(),
            old(self).offer_list(buy).contains(OfferBuy::Asset(sell.1, sell.2)) ==> {
                &&& r == Ok::<(Option<()>, Transfer), Error>(
                    (Some(()), old(self).escrow_transfer(sell.0, sell.1, sell.2)),
                )
                &&& final(self).owners() == old(self).owners().insert(buy, sell.0)
                &&& final(self).sell_glyph_offers() == old(self).sell_glyph_offers().remove(buy)
                &&& final(self).offer_list(buy).len() == 0
                &&& final(self).royalties() == apply_credits(
                    old(self).royalties(),
                    split_credits(
                        old(self).glyphs()[buy],
                        old(self).colors(),
                        old(self).owners()[buy],
                        sell.2 as int,
                        old(self).author_rate() as int,
                        old(self).color_rate() as int,
                    ),
                    sell.1,
                )
                &&& final(self).same_config(*old(self))
                &&& final(self).glyph_count() == old(self).glyph_count()
                &&& final(self).colors() == old(self).colors()
                &&& final(self).hash_index() == old(self).hash_index()
                &&& final(self).glyphs() == old(self).glyphs()
                &&& final(self).sell_asset_offers() == old(self).sell_asset_offers()
            },
            !old(self).offer_list(buy).contains(OfferBuy::Asset(sell.1, sell.2)) ==> {
                if old(self).queue(buy, sell.1, sell.2).contains(sell.0) {
                    &&& r == Err::<(Option<()>, Transfer), Error>(Error::OfferDuplicate)
                    &&& *final(self) == *old(self)
                } else {
                    &&& r == Ok::<(Option<()>, Transfer), Error>(
                        (None, old(self).escrow_transfer(sell.0, sell.1, sell.2)),
                    )
                    &&& sorted_owners(final(self).queue(buy, sell.1, sell.2))
                    &&& forall|y: u64|
                        final(self).queue(buy, sell.1, sell.2).contains(y) <==> old(self).queue(
                            buy,
                            sell.1,
                            sell.2,
                        ).contains(y) || y == sell.0
                    &&& final(self).sell_asset_offers().remove((buy, sell.1, sell.2)) == old(
                        self,
                    ).sell_asset_offers().remove((buy, sell.1, sell.2))
                    &&& final(self).unchanged_but_asset_offers(*old(self))
                }
            },
    {
        let OfferSellAsset(owner, sac, amount) = sell;
        let matched = match self.glyph_offers.get(&buy) {
            Some(l) => {
                proof {
                    assert(self.sell_glyph_offers().contains_key(buy));
                    assert(self.sell_glyph_offers()[buy] == l@);
                }
                offer_search(l, OfferBuy::Asset(sac, amount)).is_ok()
            },
            None => false,
        };
        if matched {
            proof {
                assert(self.sell_glyph_offers().contains_key(buy));
                assert(self.glyphs().contains_key(buy));
                assert(self.owners().contains_key(buy));
            }
            let buy_glyph_owner: u64 = *self.glyph_owners.get(&buy).unwrap();
            let glyph = self.glyph_records.get(&buy).unwrap().duplicate();
            proof {
                assert(glyph@ == self.glyphs()[buy]);
            }
            let credits = compute_credits(
                &self.color_owners,
                &glyph,
                buy_glyph_owner,
                amount,
                self.glyph_author_royalty_rate,
                self.color_owner_royalty_rate,
            );
            apply_credits_store(&mut self.royalty_store, &credits, sac);
            self.glyph_owners.set(buy, owner);
            self.glyph_offers.remove(&buy);
            proof {
                lemma_view_congruence(*self, *old(self));
                assert(self.sell_glyph_offers() =~= old(self).sell_glyph_offers().remove(buy));
            }
            Ok(
                (
                    Some(()),
                    Transfer { from: owner, to: self.contract_address, sac: sac, amount: amount },
                ),
            )
        } else {
            let key = AssetOfferKey { glyph: buy, sac: sac, amount: amount };
            let mut q: Vec<u64> = match self.asset_offers.get(&key) {
                Some(l) => copy_owners(l),
                None => Vec::new(),
            };
            proof {
                if self.sell_asset_offers().contains_key((buy, sac, amount)) {
                    assert(self.sell_asset_offers()[(buy, sac, amount)] == q@);
                }
                assert(q@ == old(self).queue(buy, sac, amount));
            }
            match owner_queue_insert(&mut q, owner) {
                None => Err(Error::OfferDuplicate),
                Some(_) => {
                    self.asset_offers.set(key, q);
                    proof {
                        lemma_view_congruence(*self, *old(self));
                        assert(final(self).sell_asset_offers().remove((buy, sac, amount)) =~= old(
                            self,
                        ).sell_asset_offers().remove((buy, sac, amount)));
                    }
                    Ok(
                        (
                            None,
                            Transfer {
                                from: owner,
                                to: self.contract_address,
                                sac: sac,
                                amount: amount,
                            },
                        ),
                    )
                },
            }
        }
    }

    /// The owner of glyph `sell` offers it in exchange for `buy`. A
    /// matching counter-offer executes the trade at once: for a wanted
    /// glyph, a reverse offer swaps the two glyphs' owners and purges both
    /// offer sets; for a wanted asset, the lowest-ordered queued buyer is
    /// serviced, the royalty split is accrued, and the glyph's offer set
    /// is purged. Without a match, the offer joins the glyph's sorted
    /// offer set. The host authorizes the glyph's owner.
    pub fn offer_sell_glyph(&mut self, sell: u32, buy: OfferBuy) -> (r: Result<
        Option<u64>,
        Error,
    >)
        requires
            old(self).wf(),
            old(self).owners().contains_key(sell) ==> (buy matches OfferBuy::Asset(sac, amount)
                ==> (old(self).queue(sell, sac, amount).len() > 0 ==> old(self).sale_ok(
                sell,
                sac,
                amount,
            ))),
        ensures
            final(self).wf(),
            !old(self).owners().contains_key(sell) ==> {
                &&& r == Err::<Option<u64>, Error>(Error::GlyphNotMinted)
                &&& *final(self) == *old(self)
            },
            old(self).owners().contains_key(sell) ==> match buy {
                OfferBuy::Glyph(other) => {
                    if old(self).offer_list(other).contains(OfferBuy::Glyph(sell)) {
                        &&& r == Ok::<Option<u64>, Error>(Some(old(self).owners()[other]))
                        &&& final(self).owners() == old(self).owners().insert(
                            sell,
                            old(self).owners()[other],
                        ).insert(other, old(self).owners()[sell])
                        &&& final(self).sell_glyph_offers() == old(
                            self,
                        ).sell_glyph_offers().remove(other).remove(sell)
                        &&& final(self).offer_list(sell).len() == 0
                        &&& final(self).offer_list(other).len() == 0
                        &&& final(self).same_config(*old(self))
                        &&& final(self).glyph_count() == old(self).glyph_count()
                        &&& final(self).colors() == old(self).colors()
                        &&& final(self).hash_index() == old(self).hash_index()
                        &&& final(self).glyphs() == old(self).glyphs()
                        &&& final(self).sell_asset_offers() == old(self).sell_asset_offers()
                        &&& final(self).royalties() == old(self).royalties()
                    } else {
                        final(self).offer_insert_post(*old(self), sell, buy, r)
                    }
                },
                OfferBuy::Asset(sac, amount) => {
                    if old(self).queue(sell, sac, amount).len() > 0 {
                        let buyer = old(self).queue(sell, sac, amount)[0];
                        &&& r == Ok::<Option<u64>, Error>(Some(buyer))
                        &&& final(self).owners() == old(self).owners().insert(sell, buyer)
                        &&& final(self).sell_glyph_offers() == old(
                            self,
                        ).sell_glyph_offers().remove(sell)
                        &&& final(self).offer_list(sell).len() == 0
                        &&& final(self).sell_asset_offers() == old(
                            self,
                        ).sell_asset_offers().insert(
                            (sell, sac, amount),
                            old(self).queue(sell, sac, amount).drop_first(),
                        )
                        &&& final(self).royalties() == apply_credits(
                            old(self).royalties(),
                            split_credits(
                                old(self).glyphs()[sell],
                                old(self).colors(),
                                old(self).owners()[sell],
                                amount as int,
                                old(self).author_rate() as int,
                                old(self).color_rate() as int,
                            ),
                            sac,
                        )
                        &&& final(self).same_config(*old(self))
                        &&& final(self).glyph_count() == old(self).glyph_count()
                        &&& final(self).colors() == old(self).colors()
                        &&& final(self).hash_index() == old(self).hash_index()
                        &&& final(self).glyphs() == old(self).glyphs()
                    } else {
                        final(self).offer_insert_post(*old(self), sell, buy, r)
                    }
                },
            },
    {
        let glyph_owner: u64 = match self.glyph_owners.get(&sell) {
            Some(o) => *o,
            None => {
                return Err(Error::GlyphNotMinted);
            },
        };
        match buy {
            OfferBuy::Glyph(other) => {
                let found = match self.glyph_offers.get(&other) {
                    Some(l) => {
                        proof {
                            assert(self.sell_glyph_offers().contains_key(other));
                            assert(self.sell_glyph_offers()[other] == l@);
                        }
                        offer_search(l, OfferBuy::Glyph(sell)).is_ok()
                    },
                    None => false,
                };
                if found {
                    proof {
                        assert(self.sell_glyph_offers().contains_key(other));
                        assert(self.owners().contains_key(other));
                    }
                    let buy_glyph_owner: u64 = *self.glyph_owners.get(&other).unwrap();
                    self.glyph_owners.set(sell, buy_glyph_owner);
                    self.glyph_owners.set(other, glyph_owner);
                    self.glyph_offers.remove(&other);
                    self.glyph_offers.remove(&sell);
                    proof {
                        lemma_view_congruence(*self, *old(self));
                        assert(self.sell_glyph_offers() =~= old(self).sell_glyph_offers().remove(
                            other,
                        ).remove(sell));
                    }
                    return Ok(Some(buy_glyph_owner));
                }
            },
            OfferBuy::Asset(sac, amount) => {
                let key = AssetOfferKey { glyph: sell, sac: sac, amount: amount };
                let mut head: Option<u64> = None;
                let mut tail: Vec<u64> = Vec::new();
                match self.asset_offers.get(&key) {
                    Some(q) => {
                        proof {
                            assert(self.sell_asset_offers().contains_key((sell, sac, amount)));
                            assert(self.sell_asset_offers()[(sell, sac, amount)] == q@);
                        }
                        if q.len() > 0 {
                            head = Some(q[0]);
                            tail = queue_tail(q);
                        }
                    },
                    None => {},
                }
                if let Some(buyer) = head {
                    proof {
                        assert(old(self).queue(sell, sac, amount)[0] == buyer);
                        assert(tail@ == old(self).queue(sell, sac, amount).drop_first());
                        assert(self.glyphs().contains_key(sell));
                    }
                    let glyph = self.glyph_records.get(&sell).unwrap().duplicate();
                    proof {
                        assert(glyph@ == self.glyphs()[sell]);
                    }
                    let credits = compute_credits(
                        &self.color_owners,
                        &glyph,
                        glyph_owner,
                        amount,
                        self.glyph_author_royalty_rate,
                        self.color_owner_royalty_rate,
                    );
                    apply_credits_store(&mut self.royalty_store, &credits, sac);
                    self.glyph_owners.set(sell, buyer);
                    self.glyph_offers.remove(&sell);
                    self.asset_offers.set(
                        AssetOfferKey { glyph: sell, sac: sac, amount: amount },
                        tail,
                    );
                    proof {
                        lemma_view_congruence(*self, *old(self));
                        assert(self.sell_glyph_offers() =~= old(self).sell_glyph_offers().remove(
                            sell,
                        ));
                        assert(self.sell_asset_offers() =~= old(self).sell_asset_offers().insert(
                            (sell, sac, amount),
                            old(self).queue(sell, sac, amount).drop_first(),
                        ));
                        assert(sorted_owners(self.queue(sell, sac, amount))) by {
                            let q0 = old(self).queue(sell, sac, amount);
                            let q1 = q0.drop_first();
                            assert forall|a: int, b: int|
                                0 <= a < b < q1.len() implies q1[a] < q1[b] by {
                                assert(q1[a] == q0[a + 1]);
                                assert(q1[b] == q0[b + 1]);
                            }
                        }
                    }
                    return Ok(Some(buyer));
                }
            },
        }
        let mut offers: Vec<OfferBuy> = match self.glyph_offers.get(&sell) {
            Some(l) => copy_offers(l),
            None => Vec::new(),
        };
        proof {
            if self.sell_glyph_offers().contains_key(sell) {
                assert(self.sell_glyph_offers()[sell] == offers@);
            }
            assert(offers@ == old(self).offer_list(sell));
        }
        match offer_set_insert(&mut offers, buy) {
            None => Err(Error::OfferDuplicate),
            Some(_) => {
                self.glyph_offers.set(sell, offers);
                proof {
                    lemma_view_congruence(*self, *old(self));
                    assert(final(self).sell_glyph_offers().remove(sell) =~= old(
                        self,
                    ).sell_glyph_offers().remove(sell));
                }
                Ok(None)
            },
        }
    }

    /// The royalties accrued so far for a principal and an asset.
    pub fn royalties_get(&self, owner: u64, sac: u64) -> (r: Result<i128, Error>)
        requires
            self.wf(),
        ensures
            r == Ok::<i128, Error>(self.royalty_of(owner, sac)),
    {
        let key = RoyaltyKey { owner: owner, sac: sac };
        match self.royalty_store.get(&key) {
            Some(v) => Ok(*v),
            None => Ok(0),
        }
    }

    /// Claim the full accrued royalty balance: the balance is zeroed and
    /// custody pays it out.
    pub fn royalties_claim(&mut self, owner: u64, sac: u64) -> (r: Result<Transfer, Error>)
        requires
            old(self).wf(),
        ensures
            final(self).wf(),
            old(self).royalty_of(owner, sac) == 0 ==> {
                &&& r == Err::<Transfer, Error>(Error::NoRoyaltiesToClaim)
                &&& *final(self) == *old(self)
            },
            old(self).royalty_of(owner, sac) != 0 ==> {
                &&& r == Ok::<Transfer, Error>(
                    Transfer {
                        from: old(self).custody(),
                        to: owner,
                        sac: sac,
                        amount: old(self).royalty_of(owner, sac),
                    },
                )
                &&& final(self).royalties() == old(self).royalties().insert((owner, sac), 0)
                &&& final(self).same_config(*old(self))
                &&& final(self).glyph_count() == old(self).glyph_count()
                &&& final(self).colors() == old(self).colors()
                &&& final(self).hash_index() == old(self).hash_index()
                &&& final(self).glyphs() == old(self).glyphs()
                &&& final(self).owners() == old(self).owners()
                &&& final(self).sell_glyph_offers() == old(self).sell_glyph_offers()
                &&& final(self).sell_asset_offers() == old(self).sell_asset_offers()
            },
    {
        let key = RoyaltyKey { owner: owner, sac: sac };
        let royalties: i128 = match self.royalty_store.get(&key) {
            Some(v) => *v,
            None => 0,
        };
        if royalties == 0 {
            return Err(Error::NoRoyaltiesToClaim);
        }
        self.royalty_store.set(RoyaltyKey { owner: owner, sac: sac }, 0);
        proof {
            lemma_view_congruence(*self, *old(self));
        }
        Ok(Transfer { from: self.contract_address, to: owner, sac: sac, amount: royalties })
    }
}

} // verus!
