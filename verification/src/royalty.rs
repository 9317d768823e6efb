//! The royalty engine: given a glyph sold for an amount of an asset, it
//! splits the amount into a credit for the glyph's author, one credit per
//! owned legend color weighted by how often the color is used, and a
//! remainder for the seller.
//!
//! Rounding policy: every credited party receives at least one unit
//! (`max1` below), and the remainder absorbs all rounding loss. By
//! construction the credits sum exactly to the sale amount.

use vstd::prelude::*;
use vstd::arithmetic::div_mod::{
    lemma_div_is_ordered, lemma_div_multiples_vanish, lemma_div_multiples_vanish_fancy,
    lemma_div_nonincreasing, lemma_div_pos_is_pos, lemma_fundamental_div_mod,
};
use vstd::arithmetic::mul::{
    lemma_mul_inequality, lemma_mul_is_commutative, lemma_mul_is_distributive_add,
    lemma_mul_nonnegative, lemma_mul_strict_inequality,
};
use crate::glyph::{count_of, get_palette, Glyph, GlyphAbs, MAX_GLYPH_SIZE};
use crate::store::{Store, StoreKey};

verus! {

/// A royalty accrual key: the credited principal and the asset.
pub struct RoyaltyKey {
    pub owner: u64,
    pub sac: u64,
}

impl StoreKey for RoyaltyKey {
    type Abs = (u64, u64);

    open spec fn abs(self) -> (u64, u64) {
        (self.owner, self.sac)
    }

    fn key_eq(&self, other: &Self) -> (r: bool) {
        self.owner == other.owner && self.sac == other.sac
    }
}

/// At least one unit for every credited party.
pub open spec fn max1(x: int) -> int {
    if x < 1 {
        1
    } else {
        x
    }
}

/// The author's credit: at least one unit of the floored percentage.
pub open spec fn author_amount(amount: int, rate: int) -> int {
    max1((rate * amount) / 100)
}

/// The color-owner pool: the floored percentage of the amount.
pub open spec fn color_base(amount: int, rate: int) -> int {
    (rate * amount) / 100
}

/// One owned color's credit: its share of the pool by pixel count, at
/// least one unit.
pub open spec fn color_credit(base: int, count: int, total: int) -> int {
    max1((base * count) / total)
}

/// How many legend entries the royalty loop visits: the legend length,
/// capped at the 256 possible palette index bytes.
pub open spec fn legend_upto(legend_len: int) -> int {
    if legend_len < 256 {
        legend_len
    } else {
        256
    }
}

/// The color-owner credits for legend entries below `upto`, in legend
/// order: entries whose color has no registered owner are skipped.
pub open spec fn color_credits(
    owners: Map<u32, u64>,
    legend: Seq<u32>,
    pixels: Seq<u8>,
    base: int,
    upto: int,
) -> Seq<(u64, i128)>
    decreases upto,
{
    if upto <= 0 {
        Seq::empty()
    } else {
        let prev = color_credits(owners, legend, pixels, base, upto - 1);
        let color = legend[upto - 1];
        if owners.contains_key(color) {
            prev.push(
                (
                    owners[color],
                    color_credit(base, count_of(pixels, upto - 1), pixels.len() as int) as i128,
                ),
            )
        } else {
            prev
        }
    }
}

/// The sum of a credit sequence's amounts.
pub open spec fn sum_credits(s: Seq<(u64, i128)>) -> int
    decreases s.len(),
{
    if s.len() == 0 {
        0
    } else {
        sum_credits(s.drop_last()) + s.last().1
    }
}

/// The full credit sequence of a sale: the author first, then the owned
/// legend colors, then the seller's remainder.
pub open spec fn split_credits(
    glyph: GlyphAbs,
    owners: Map<u32, u64>,
    seller: u64,
    amount: int,
    author_rate: int,
    color_rate: int,
) -> Seq<(u64, i128)> {
    let a = author_amount(amount, author_rate);
    let cc = color_credits(
        owners,
        glyph.legend,
        glyph.colors,
        color_base(amount, color_rate),
        legend_upto(glyph.legend.len() as int),
    );
    seq![(glyph.author, a as i128)] + cc + seq![(seller, (amount - a - sum_credits(cc)) as i128)]
}

/// The split divides by the pixel count whenever some visited legend color
/// is owned, so it is defined only if the glyph has pixels or no visited
/// color is owned.
pub open spec fn split_defined(glyph: GlyphAbs, owners: Map<u32, u64>) -> bool {
    glyph.colors.len() > 0 || forall|i: int|
        0 <= i < legend_upto(glyph.legend.len() as int) ==> !owners.contains_key(glyph.legend[i])
}

/// The machine bounds of the split: the seller's remainder and the total
/// of the color credits stay within `i128`.
pub open spec fn split_fits(
    glyph: GlyphAbs,
    owners: Map<u32, u64>,
    amount: int,
    author_rate: int,
    color_rate: int,
) -> bool {
    let cc = color_credits(
        owners,
        glyph.legend,
        glyph.colors,
        color_base(amount, color_rate),
        legend_upto(glyph.legend.len() as int),
    );
    &&& i128::MIN <= amount - author_amount(amount, author_rate) - sum_credits(cc)
    &&& sum_credits(cc) <= i128::MAX
}

/// The balance of a principal for an asset in an accrual map, zero if no
/// accrual exists.
pub open spec fn bal(m: Map<(u64, u64), i128>, owner: u64, sac: u64) -> int {
    if m.contains_key((owner, sac)) {
        m[(owner, sac)] as int
    } else {
        0
    }
}

/// One credit added to an accrual map.
pub open spec fn apply_credit(
    m: Map<(u64, u64), i128>,
    c: (u64, i128),
    sac: u64,
) -> Map<(u64, u64), i128> {
    m.insert((c.0, sac), (bal(m, c.0, sac) + c.1) as i128)
}

/// A credit sequence applied in order to an accrual map.
pub open spec fn apply_credits(
    m: Map<(u64, u64), i128>,
    credits: Seq<(u64, i128)>,
    sac: u64,
) -> Map<(u64, u64), i128>
    decreases credits.len(),
{
    if credits.len() == 0 {
        m
    } else {
        apply_credits(apply_credit(m, credits.first(), sac), credits.drop_first(), sac)
    }
}

/// Every intermediate balance stays within `i128` while the credits are
/// applied in order.
pub open spec fn credits_fit(
    m: Map<(u64, u64), i128>,
    credits: Seq<(u64, i128)>,
    sac: u64,
) -> bool
    decreases credits.len(),
{
    credits.len() == 0 || {
        let c = credits.first();
        let nb = bal(m, c.0, sac) + c.1;
        &&& i128::MIN <= nb <= i128::MAX
        &&& credits_fit(apply_credit(m, c, sac), credits.drop_first(), sac)
    }
}

/// Floored multiply-then-divide, `(a * b) / c`, without intermediate
/// overflow. The result never exceeds `a` because `b <= c`.
pub fn mul_div_floor(a: i128, b: i128, c: i128) -> (r: i128)
    requires
        0 <= a,
        0 <= b <= c,
        0 < c,
        c < 0x8000000000000000,
    ensures
        r == (a * b) / (c as int),
        0 <= r <= a,
{
    let q = a / c;
    let rem = a % c;
    let ghost ai = a as int;
    let ghost bi = b as int;
    let ghost ci = c as int;
    let ghost qi = q as int;
    let ghost ri = rem as int;
    proof {
        lemma_fundamental_div_mod(ai, ci);
        lemma_div_pos_is_pos(ai, ci);
        assert(qi == ai / ci && ri == ai % ci);
        // rem * b fits in i128: rem < c and b <= c, so rem * b < c * c
        lemma_mul_inequality(bi, ci, ri);
        lemma_mul_is_commutative(ri, bi);
        lemma_mul_is_commutative(ri, ci);
        lemma_mul_strict_inequality(ri, ci, ci);
        lemma_mul_nonnegative(ri, bi);
        assert(ri * bi <= ri * ci) by {
            lemma_mul_inequality(bi, ci, ri);
            lemma_mul_is_commutative(bi, ri);
            lemma_mul_is_commutative(ci, ri);
        }
        assert(ci * ci <= i128::MAX) by (nonlinear_arith)
            requires
                0 < ci < 0x8000000000000000,
        {}
        // q * b fits: q * b <= q * c <= a
        assert(qi * bi <= qi * ci) by {
            lemma_mul_inequality(bi, ci, qi);
            lemma_mul_is_commutative(bi, qi);
            lemma_mul_is_commutative(ci, qi);
        }
        assert(ci * qi + ri == ai);
        lemma_mul_is_commutative(ci, qi);
        lemma_mul_nonnegative(qi, bi);
        assert(qi * bi <= ai);
    }
    let part = (rem * b) / c;
    let ghost pi = part as int;
    proof {
        lemma_div_pos_is_pos(ri * bi, ci);
        lemma_div_nonincreasing(ri * bi, ci);
        assert(pi == (ri * bi) / ci);
        // a * b == c * (q * b) + rem * b
        assert(ai * bi == ci * (qi * bi) + ri * bi) by (nonlinear_arith)
            requires
                ai == ci * qi + ri,
        {}
        // hence (a * b) / c == q * b + (rem * b) / c
        assert((ai * bi) / ci == qi * bi + pi) by {
            lemma_fundamental_div_mod(ri * bi, ci);
            assert(ai * bi == ci * (qi * bi + pi) + (ri * bi) % ci) by {
                lemma_mul_is_distributive_add(ci, qi * bi, pi);
                assert(ci * pi + (ri * bi) % ci == ri * bi);
            }
            assert(0 <= (ri * bi) % ci < ci);
            lemma_div_multiples_vanish_fancy(qi * bi + pi, (ri * bi) % ci, ci);
        }
        // the result is at most a
        assert((ai * bi) / ci <= ai) by {
            assert(ai * bi <= ci * ai) by {
                lemma_mul_inequality(bi, ci, ai);
                lemma_mul_is_commutative(bi, ai);
                lemma_mul_is_commutative(ci, ai);
            }
            lemma_div_is_ordered(ai * bi, ci * ai, ci);
            lemma_div_multiples_vanish(ai, ci);
        }
        assert(0 <= qi * bi + pi <= ai);
    }
    q * b + part
}

/// Floored division is subadditive: the floors of two shares never exceed
/// the floor of their sum.
proof fn lemma_div_subadd(a: int, b: int, d: int)
    requires
        0 <= a,
        0 <= b,
        0 < d,
    ensures
        a / d + b / d <= (a + b) / d,
{
    lemma_fundamental_div_mod(a, d);
    lemma_fundamental_div_mod(b, d);
    lemma_div_pos_is_pos(a, d);
    lemma_div_pos_is_pos(b, d);
    let qa = a / d;
    let qb = b / d;
    let r = a % d + b % d;
    assert(a + b == d * (qa + qb) + r) by {
        lemma_mul_is_distributive_add(d, qa, qb);
    }
    if r < d {
        lemma_div_multiples_vanish_fancy(qa + qb, r, d);
    } else {
        assert(a + b == d * (qa + qb + 1) + (r - d)) by {
            lemma_mul_is_distributive_add(d, qa + qb, 1);
        }
        lemma_div_multiples_vanish_fancy(qa + qb + 1, r - d, d);
    }
}

/// The author's credit lies between one unit and the larger of one unit
/// and the amount.
pub proof fn lemma_author_amount_bounds(amount: int, rate: int)
    requires
        0 <= amount,
        0 <= rate <= 100,
    ensures
        1 <= author_amount(amount, rate) <= max1(amount),
        0 <= color_base(amount, rate) <= amount,
{
    lemma_mul_inequality(rate, 100, amount);
    lemma_mul_is_commutative(100, amount);
    lemma_mul_nonnegative(rate, amount);
    lemma_div_pos_is_pos(rate * amount, 100);
    lemma_div_is_ordered(rate * amount, amount * 100, 100);
    lemma_div_multiples_vanish(amount, 100);
    assert(amount * 100 == 100 * amount);
}

/// The total pixel count over palette indices below `k`.
pub open spec fn sum_counts(pixels: Seq<u8>, k: int) -> int
    decreases k,
{
    if k <= 0 {
        0
    } else {
        sum_counts(pixels, k - 1) + count_of(pixels, k - 1)
    }
}

proof fn lemma_sum_counts_zero(pixels: Seq<u8>, k: int)
    requires
        pixels.len() == 0,
    ensures
        sum_counts(pixels, k) == 0,
    decreases k,
{
    if k > 0 {
        lemma_sum_counts_zero(pixels, k - 1);
    }
}

proof fn lemma_sum_counts_drop(pixels: Seq<u8>, k: int)
    requires
        pixels.len() > 0,
    ensures
        sum_counts(pixels, k) == sum_counts(pixels.drop_last(), k) + if (pixels.last() as int)
            < k {
            1int
        } else {
            0int
        },
    decreases k,
{
    if k > 0 {
        lemma_sum_counts_drop(pixels, k - 1);
    }
}

/// The counts of distinct palette indices cannot outnumber the pixels.
proof fn lemma_sum_counts_le_len(pixels: Seq<u8>, k: int)
    ensures
        0 <= sum_counts(pixels, k) <= pixels.len(),
    decreases pixels.len(),
{
    if pixels.len() == 0 {
        lemma_sum_counts_zero(pixels, k);
    } else {
        lemma_sum_counts_le_len(pixels.drop_last(), k);
        lemma_sum_counts_drop(pixels, k);
    }
}

/// One owned color's credit lies between one unit and the larger of one
/// unit and the pool, and at most one unit above its floored share.
proof fn lemma_color_credit_range(base: int, c: int, n: int)
    requires
        0 <= base <= i128::MAX,
        0 <= c <= n,
        0 < n,
    ensures
        1 <= color_credit(base, c, n) <= max1(base),
        color_credit(base, c, n) <= 1 + (base * c) / n,
{
    lemma_mul_nonnegative(base, c);
    lemma_div_pos_is_pos(base * c, n);
    assert(base * c <= base * n) by {
        lemma_mul_inequality(c, n, base);
        lemma_mul_is_commutative(c, base);
        lemma_mul_is_commutative(n, base);
    }
    lemma_div_is_ordered(base * c, base * n, n);
    assert((base * n) / n == base) by {
        lemma_mul_is_commutative(base, n);
        lemma_div_multiples_vanish(base, n);
    }
}

/// The color credits through `upto` total at most `upto` units beyond the
/// pool's share of the counted pixels; and they are never negative.
proof fn lemma_color_credits_sum(
    owners: Map<u32, u64>,
    legend: Seq<u32>,
    pixels: Seq<u8>,
    base: int,
    upto: int,
)
    requires
        0 <= base <= i128::MAX,
        0 <= upto,
        pixels.len() > 0 || forall|i: int| 0 <= i < upto ==> !owners.contains_key(legend[i]),
    ensures
        0 <= sum_credits(color_credits(owners, legend, pixels, base, upto)),
        pixels.len() == 0 ==> sum_credits(color_credits(owners, legend, pixels, base, upto))
            == 0,
        pixels.len() > 0 ==> sum_credits(color_credits(owners, legend, pixels, base, upto))
            <= upto + (base * sum_counts(pixels, upto)) / (pixels.len() as int),
    decreases upto,
{
    let n = pixels.len() as int;
    let cc = color_credits(owners, legend, pixels, base, upto);
    if upto > 0 {
        lemma_color_credits_sum(owners, legend, pixels, base, upto - 1);
        let prev = color_credits(owners, legend, pixels, base, upto - 1);
        if pixels.len() > 0 {
            let c = count_of(pixels, upto - 1);
            lemma_sum_counts_le_len(pixels, upto - 1);
            lemma_mul_nonnegative(base, sum_counts(pixels, upto - 1));
            lemma_div_pos_is_pos(base * sum_counts(pixels, upto - 1), n);
            if owners.contains_key(legend[upto - 1]) {
                assert(cc.drop_last() =~= prev);
                crate::glyph::lemma_count_of_bounds(pixels, upto - 1);
                lemma_color_credit_range(base, c, n);
                // the credit's cast to i128 is faithful, and at most one
                // unit above its floored share
                assert(cc.last().1 == color_credit(base, c, n) as i128);
                assert(cc.last().1 as int == color_credit(base, c, n));
                // floors are subadditive across the histogram
                lemma_mul_nonnegative(base, c);
                lemma_mul_nonnegative(base, sum_counts(pixels, upto - 1));
                lemma_div_subadd(base * sum_counts(pixels, upto - 1), base * c, n);
                lemma_mul_is_distributive_add(base, sum_counts(pixels, upto - 1), c);
                assert(sum_credits(cc) <= upto + (base * sum_counts(pixels, upto)) / n);
            } else {
                assert(sum_counts(pixels, upto) == sum_counts(pixels, upto - 1) + c);
                crate::glyph::lemma_count_of_bounds(pixels, upto - 1);
                lemma_mul_nonnegative(base, sum_counts(pixels, upto - 1));
                lemma_mul_nonnegative(base, c);
                lemma_div_subadd(base * sum_counts(pixels, upto - 1), base * c, n);
                lemma_mul_is_distributive_add(base, sum_counts(pixels, upto - 1), c);
                lemma_div_pos_is_pos(base * c, n);
            }
        }
    }
}

/// The color credits total at most `upto` units beyond the pool itself.
pub proof fn lemma_color_credits_total(
    owners: Map<u32, u64>,
    legend: Seq<u32>,
    pixels: Seq<u8>,
    base: int,
    upto: int,
)
    requires
        0 <= base <= i128::MAX,
        0 <= upto,
        pixels.len() > 0 || forall|i: int| 0 <= i < upto ==> !owners.contains_key(legend[i]),
    ensures
        0 <= sum_credits(color_credits(owners, legend, pixels, base, upto)) <= upto + base,
{
    lemma_color_credits_sum(owners, legend, pixels, base, upto);
    if pixels.len() > 0 {
        let n = pixels.len() as int;
        lemma_sum_counts_le_len(pixels, upto);
        lemma_mul_inequality(sum_counts(pixels, upto), n, base);
        assert(base * sum_counts(pixels, upto) <= base * n) by {
            lemma_mul_is_commutative(sum_counts(pixels, upto), base);
            lemma_mul_is_commutative(n, base);
        }
        lemma_mul_nonnegative(base, sum_counts(pixels, upto));
        lemma_div_is_ordered(base * sum_counts(pixels, upto), base * n, n);
        assert((base * n) / n == base) by {
            lemma_mul_is_commutative(base, n);
            lemma_div_multiples_vanish(base, n);
        }
    }
}

/// Prefixes of the color credits never total more than the whole: each
/// credit is at least one unit.
proof fn lemma_color_credits_mono(
    owners: Map<u32, u64>,
    legend: Seq<u32>,
    pixels: Seq<u8>,
    base: int,
    k: int,
    upto: int,
)
    requires
        0 <= base <= i128::MAX,
        0 <= k <= upto,
        pixels.len() > 0 || forall|i: int| 0 <= i < upto ==> !owners.contains_key(legend[i]),
    ensures
        sum_credits(color_credits(owners, legend, pixels, base, k)) <= sum_credits(
            color_credits(owners, legend, pixels, base, upto),
        ),
    decreases upto - k,
{
    if k < upto {
        lemma_color_credits_mono(owners, legend, pixels, base, k + 1, upto);
        let cur = color_credits(owners, legend, pixels, base, k + 1);
        let prev = color_credits(owners, legend, pixels, base, k);
        if owners.contains_key(legend[k]) {
            assert(cur.drop_last() =~= prev);
            crate::glyph::lemma_count_of_bounds(pixels, k);
            lemma_color_credit_range(base, count_of(pixels, k), pixels.len() as int);
            assert(cur.last().1 >= 1);
        }
    }
}

proof fn lemma_sum_credits_singleton(c: (u64, i128))
    ensures
        sum_credits(seq![c]) == c.1,
{
    assert(seq![c].drop_last() =~= Seq::<(u64, i128)>::empty());
    assert(sum_credits(Seq::<(u64, i128)>::empty()) == 0);
}

proof fn lemma_sum_credits_concat(s1: Seq<(u64, i128)>, s2: Seq<(u64, i128)>)
    ensures
        sum_credits(s1 + s2) == sum_credits(s1) + sum_credits(s2),
    decreases s2.len(),
{
    if s2.len() == 0 {
        assert(s1 + s2 =~= s1);
    } else {
        lemma_sum_credits_concat(s1, s2.drop_last());
        assert((s1 + s2).drop_last() =~= s1 + s2.drop_last());
        assert((s1 + s2).last() == s2.last());
    }
}

/// Conservation: the credits of a sale sum exactly to the sale amount.
/// The author's credit, every color owner's credit, and the seller's
/// remainder leak nothing and create nothing.
pub proof fn lemma_split_conservation(
    glyph: GlyphAbs,
    owners: Map<u32, u64>,
    seller: u64,
    amount: int,
    author_rate: int,
    color_rate: int,
)
    requires
        0 <= amount <= i128::MAX,
        0 <= author_rate <= 100,
        0 <= color_rate <= 100,
        split_defined(glyph, owners),
        split_fits(glyph, owners, amount, author_rate, color_rate),
    ensures
        sum_credits(split_credits(glyph, owners, seller, amount, author_rate, color_rate))
            == amount,
{
    let a = author_amount(amount, author_rate);
    let base = color_base(amount, color_rate);
    let upto = legend_upto(glyph.legend.len() as int);
    let cc = color_credits(owners, glyph.legend, glyph.colors, base, upto);
    let head = seq![(glyph.author, a as i128)];
    let tail = seq![(seller, (amount - a - sum_credits(cc)) as i128)];
    lemma_author_amount_bounds(amount, author_rate);
    lemma_author_amount_bounds(amount, color_rate);
    lemma_color_credits_total(owners, glyph.legend, glyph.colors, base, upto);
    lemma_sum_credits_concat(head + cc, tail);
    lemma_sum_credits_concat(head, cc);
    lemma_sum_credits_singleton((glyph.author, a as i128));
    lemma_sum_credits_singleton((seller, (amount - a - sum_credits(cc)) as i128));
    assert(a == a as i128);
    assert(amount - a - sum_credits(cc) == (amount - a - sum_credits(cc)) as i128);
}

/// The color credits total at most the pool's share of the counted
/// pixels when no rounding bump occurs: every owned color's floored
/// share is already at least one unit.
proof fn lemma_color_credits_sum_tight(
    owners: Map<u32, u64>,
    legend: Seq<u32>,
    pixels: Seq<u8>,
    base: int,
    upto: int,
)
    requires
        0 <= base <= i128::MAX,
        0 <= upto,
        pixels.len() > 0,
        forall|i: int|
            0 <= i < upto && #[trigger] owners.contains_key(legend[i]) ==> (base * count_of(
                pixels,
                i,
            )) / (pixels.len() as int) >= 1,
    ensures
        sum_credits(color_credits(owners, legend, pixels, base, upto)) <= (base * sum_counts(
            pixels,
            upto,
        )) / (pixels.len() as int),
    decreases upto,
{
    let n = pixels.len() as int;
    let cc = color_credits(owners, legend, pixels, base, upto);
    lemma_sum_counts_le_len(pixels, upto);
    lemma_mul_nonnegative(base, sum_counts(pixels, upto));
    lemma_div_pos_is_pos(base * sum_counts(pixels, upto), n);
    if upto > 0 {
        lemma_color_credits_sum_tight(owners, legend, pixels, base, upto - 1);
        let prev = color_credits(owners, legend, pixels, base, upto - 1);
        let c = count_of(pixels, upto - 1);
        crate::glyph::lemma_count_of_bounds(pixels, upto - 1);
        lemma_sum_counts_le_len(pixels, upto - 1);
        lemma_mul_nonnegative(base, sum_counts(pixels, upto - 1));
        lemma_mul_nonnegative(base, c);
        lemma_div_subadd(base * sum_counts(pixels, upto - 1), base * c, n);
        lemma_mul_is_distributive_add(base, sum_counts(pixels, upto - 1), c);
        if owners.contains_key(legend[upto - 1]) {
            assert(cc.drop_last() =~= prev);
            lemma_color_credit_range(base, c, n);
            // no bump: the floored share is the credit itself
            assert((base * c) / n >= 1);
            assert(cc.last().1 as int == (base * c) / n);
        } else {
            lemma_div_pos_is_pos(base * c, n);
        }
    }
}

/// With rates totalling at most one hundred percent, the seller's
/// remainder is non-negative whenever no rounding bump occurs: the
/// author's floored share and every owned legend color's floored share
/// are already at least one unit. (Where a share floors to zero, the
/// one-unit minimum can push the remainder below zero; the remainder
/// absorbs that rounding loss.)
pub proof fn lemma_remainder_nonnegative(
    glyph: GlyphAbs,
    owners: Map<u32, u64>,
    amount: int,
    author_rate: int,
    color_rate: int,
)
    requires
        0 <= amount <= i128::MAX,
        0 <= author_rate,
        0 <= color_rate,
        author_rate + color_rate <= 100,
        glyph.colors.len() > 0,
        (author_rate * amount) / 100 >= 1,
        forall|i: int|
            0 <= i < legend_upto(glyph.legend.len() as int) && #[trigger] owners.contains_key(
                glyph.legend[i],
            ) ==> (color_base(amount, color_rate) * count_of(glyph.colors, i)) / (
            glyph.colors.len() as int) >= 1,
    ensures
        amount - author_amount(amount, author_rate) - sum_credits(
            color_credits(
                owners,
                glyph.legend,
                glyph.colors,
                color_base(amount, color_rate),
                legend_upto(glyph.legend.len() as int),
            ),
        ) >= 0,
{
    let n = glyph.colors.len() as int;
    let base = color_base(amount, color_rate);
    let upto = legend_upto(glyph.legend.len() as int);
    lemma_author_amount_bounds(amount, author_rate);
    lemma_author_amount_bounds(amount, color_rate);
    lemma_color_credits_sum_tight(owners, glyph.legend, glyph.colors, base, upto);
    // the colors' total is at most the pool itself
    lemma_sum_counts_le_len(glyph.colors, upto);
    lemma_mul_nonnegative(base, sum_counts(glyph.colors, upto));
    assert(base * sum_counts(glyph.colors, upto) <= base * n) by {
        lemma_mul_inequality(sum_counts(glyph.colors, upto), n, base);
        lemma_mul_is_commutative(sum_counts(glyph.colors, upto), base);
        lemma_mul_is_commutative(n, base);
    }
    lemma_div_is_ordered(base * sum_counts(glyph.colors, upto), base * n, n);
    assert((base * n) / n == base) by {
        lemma_mul_is_commutative(base, n);
        lemma_div_multiples_vanish(base, n);
    }
    // no bump on the author's share either
    assert(author_amount(amount, author_rate) == (author_rate * amount) / 100);
    // the two floored percentages together stay within the amount
    lemma_mul_nonnegative(author_rate, amount);
    lemma_mul_nonnegative(color_rate, amount);
    lemma_div_subadd(author_rate * amount, color_rate * amount, 100);
    assert(author_rate * amount + color_rate * amount == (author_rate + color_rate) * amount)
        by {
        lemma_mul_is_distributive_add(amount, author_rate, color_rate);
        lemma_mul_is_commutative(amount, author_rate);
        lemma_mul_is_commutative(amount, color_rate);
        lemma_mul_is_commutative(amount, author_rate + color_rate);
    }
    assert((author_rate + color_rate) * amount <= 100 * amount) by {
        lemma_mul_inequality(author_rate + color_rate, 100, amount);
        lemma_mul_is_commutative(author_rate + color_rate, amount);
        lemma_mul_is_commutative(100, amount);
    }
    lemma_div_is_ordered((author_rate + color_rate) * amount, 100 * amount, 100);
    assert((100 * amount) / 100 == amount) by {
        lemma_div_multiples_vanish(amount, 100);
    }
}

/// Compute the credit sequence of a sale: the glyph's author first, then
/// each owned legend color weighted by its pixel count, then the seller's
/// remainder.
pub(crate) fn compute_credits(
    color_owners: &Store<u32, u64>,
    glyph: &Glyph,
    seller: u64,
    amount: i128,
    author_rate: i128,
    color_rate: i128,
) -> (credits: Vec<(u64, i128)>)
    requires
        color_owners.wf(),
        0 <= amount,
        0 <= author_rate <= 100,
        0 <= color_rate <= 100,
        glyph@.colors.len() <= MAX_GLYPH_SIZE,
        split_defined(glyph@, color_owners.as_map()),
        split_fits(
            glyph@,
            color_owners.as_map(),
            amount as int,
            author_rate as int,
            color_rate as int,
        ),
    ensures
        credits@ == split_credits(
            glyph@,
            color_owners.as_map(),
            seller,
            amount as int,
            author_rate as int,
            color_rate as int,
        ),
{
    let ghost owners = color_owners.as_map();
    let ghost am = amount as int;
    let ghost ar = author_rate as int;
    let ghost cr = color_rate as int;
    proof {
        lemma_author_amount_bounds(am, ar);
        lemma_author_amount_bounds(am, cr);
        lemma_mul_is_commutative(am, ar);
        lemma_mul_is_commutative(am, cr);
    }
    let a0 = mul_div_floor(amount, author_rate, 100);
    let author_amt = if a0 < 1 {
        1
    } else {
        a0
    };
    let base = mul_div_floor(amount, color_rate, 100);
    proof {
        assert(author_amt as int == author_amount(am, ar));
        assert(base as int == color_base(am, cr));
    }
    let hist = get_palette(&glyph.colors);
    let total = glyph.colors.len();
    let legend_len = glyph.legend.len();
    let upto = if legend_len < 256 {
        legend_len
    } else {
        256
    };
    let ghost up = legend_upto(glyph@.legend.len() as int);
    assert(upto as int == up);
    let ghost whole = color_credits(owners, glyph@.legend, glyph@.colors, base as int, up);
    let mut credits: Vec<(u64, i128)> = Vec::new();
    credits.push((glyph.author, author_amt));
    let mut colors_sum: i128 = 0;
    let mut i: usize = 0;
    while i < upto
        invariant
            color_owners.wf(),
            owners == color_owners.as_map(),
            i <= upto,
            upto as int == up,
            up <= glyph@.legend.len(),
            up <= 256,
            total == glyph@.colors.len() <= MAX_GLYPH_SIZE,
            hist@.len() == 256,
            forall|b: int| 0 <= b < 256 ==> hist@[b] as int == count_of(glyph@.colors, b),
            0 <= base <= amount,
            0 <= amount,
            split_defined(glyph@, owners),
            whole == color_credits(owners, glyph@.legend, glyph@.colors, base as int, up),
            sum_credits(whole) <= i128::MAX,
            credits@ == seq![(glyph@.author, author_amount(am, ar) as i128)] + color_credits(
                owners,
                glyph@.legend,
                glyph@.colors,
                base as int,
                i as int,
            ),
            colors_sum as int == sum_credits(
                color_credits(owners, glyph@.legend, glyph@.colors, base as int, i as int),
            ),
            0 <= colors_sum,
        decreases upto - i,
    {
        let ghost cc_i = color_credits(owners, glyph@.legend, glyph@.colors, base as int, i as int);
        let ghost cc_n = color_credits(
            owners,
            glyph@.legend,
            glyph@.colors,
            base as int,
            i as int + 1,
        );
        let color = glyph.legend[i];
        match color_owners.get(&color) {
            Some(owner_ref) => {
                let owner = *owner_ref;
                assert(total > 0);
                let count = hist[i] as i128;
                proof {
                    crate::glyph::lemma_count_of_bounds(glyph@.colors, i as int);
                }
                let cr0 = mul_div_floor(base, count, total as i128);
                let credit = if cr0 < 1 {
                    1
                } else {
                    cr0
                };
                proof {
                    lemma_color_credit_range(base as int, count as int, total as int);
                    assert(credit as int == color_credit(
                        base as int,
                        count_of(glyph@.colors, i as int),
                        total as int,
                    ));
                    assert(cc_n == cc_i.push((owner, credit)));
                    lemma_color_credits_mono(
                        owners,
                        glyph@.legend,
                        glyph@.colors,
                        base as int,
                        i as int + 1,
                        up,
                    );
                    assert(cc_n.drop_last() =~= cc_i);
                    assert(sum_credits(cc_n) == sum_credits(cc_i) + credit);
                }
                credits.push((owner, credit));
                proof {
                    assert(credits@ =~= seq![(glyph@.author, author_amount(am, ar) as i128)]
                        + cc_n);
                }
                colors_sum = colors_sum + credit;
            },
            None => {
                proof {
                    assert(cc_n == cc_i);
                }
            },
        }
        i = i + 1;
    }
    proof {
        assert(colors_sum as int == sum_credits(whole));
        lemma_color_credits_total(owners, glyph@.legend, glyph@.colors, base as int, up);
    }
    let remainder = amount - author_amt - colors_sum;
    credits.push((seller, remainder));
    proof {
        assert(remainder as int == am - author_amount(am, ar) - sum_credits(whole));
        assert(credits@ =~= split_credits(glyph@, owners, seller, am, ar, cr));
    }
    credits
}

/// Accrue a credit sequence into the royalty ledger, in order.
pub(crate) fn apply_credits_store(
    store: &mut Store<RoyaltyKey, i128>,
    credits: &Vec<(u64, i128)>,
    sac: u64,
)
    requires
        old(store).wf(),
        credits_fit(old(store).as_map(), credits@, sac),
    ensures
        final(store).wf(),
        final(store).as_map() == apply_credits(old(store).as_map(), credits@, sac),
{
    let ghost m0 = old(store).as_map();
    let n = credits.len();
    let mut i: usize = 0;
    proof {
        assert(credits@.skip(0) =~= credits@);
    }
    while i < n
        invariant
            n == credits@.len(),
            i <= n,
            store.wf(),
            credits_fit(store.as_map(), credits@.skip(i as int), sac),
            apply_credits(store.as_map(), credits@.skip(i as int), sac) == apply_credits(
                m0,
                credits@,
                sac,
            ),
        decreases n - i,
    {
        let ghost mi = store.as_map();
        let ghost rest = credits@.skip(i as int);
        let (owner, amt) = credits[i];
        proof {
            assert(rest.first() == credits@[i as int]);
        }
        let key = RoyaltyKey { owner: owner, sac: sac };
        let cur: i128 = match store.get(&key) {
            Some(v) => *v,
            None => 0,
        };
        proof {
            assert(cur as int == bal(mi, owner, sac));
        }
        let newb = cur + amt;
        store.set(key, newb);
        proof {
            assert(store.as_map() =~= apply_credit(mi, (owner, amt), sac));
            assert(rest.drop_first() =~= credits@.skip(i as int + 1));
        }
        i = i + 1;
    }
    proof {
        assert(credits@.skip(n as int) =~= Seq::<(u64, i128)>::empty());
    }
}

} // verus!
