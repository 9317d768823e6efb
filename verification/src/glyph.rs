//! Glyphs: immutable pixel-art records with a bounded palette legend,
//! identified by a content hash over their pixel bytes and width.

use vstd::prelude::*;
use crate::store::StoreKey;
use sha2::Digest;

verus! {

/// The largest number of pixels a glyph may hold (a 45-by-45 image).
pub const MAX_GLYPH_SIZE: usize = 2025;

/// A glyph record: its author, its pixel bytes (each a palette index), the
/// legend mapping palette indices to 24-bit color values, and its width.
pub struct Glyph {
    pub author: u64,
    pub colors: Vec<u8>,
    pub legend: Vec<u32>,
    pub width: u32,
}

/// The mathematical content of a glyph record.
pub struct GlyphAbs {
    pub author: u64,
    pub colors: Seq<u8>,
    pub legend: Seq<u32>,
    pub width: u32,
}

impl View for Glyph {
    type V = GlyphAbs;

    open spec fn view(&self) -> GlyphAbs {
        GlyphAbs { author: self.author, colors: self.colors@, legend: self.legend@, width: self.width }
    }
}

impl Glyph {
    /// A fresh record with the same content.
    pub fn duplicate(&self) -> (r: Glyph)
        ensures
            r@ == self@,
    {
        Glyph {
            author: self.author,
            colors: copy_bytes(&self.colors),
            legend: copy_words(&self.legend),
            width: self.width,
        }
    }
}

fn copy_bytes(v: &Vec<u8>) -> (r: Vec<u8>)
    ensures
        r@ == v@,
{
    let mut r: Vec<u8> = Vec::new();
    let n = v.len();
    let mut i: usize = 0;
    while i < n
        invariant
            n == v@.len(),
            i <= n,
            r@ == v@.take(i as int),
        decreases n - i,
    {
        r.push(v[i]);
        proof {
            assert(r@ =~= v@.take(i + 1));
        }
        i = i + 1;
    }
    proof {
        assert(v@.take(n as int) =~= v@);
    }
    r
}

fn copy_words(v: &Vec<u32>) -> (r: Vec<u32>)
    ensures
        r@ == v@,
{
    let mut r: Vec<u32> = Vec::new();
    let n = v.len();
    let mut i: usize = 0;
    while i < n
        invariant
            n == v@.len(),
            i <= n,
            r@ == v@.take(i as int),
        decreases n - i,
    {
        r.push(v[i]);
        proof {
            assert(r@ =~= v@.take(i + 1));
        }
        i = i + 1;
    }
    proof {
        assert(v@.take(n as int) =~= v@);
    }
    r
}

impl StoreKey for Vec<u8> {
    type Abs = Seq<u8>;

    open spec fn abs(self) -> Seq<u8> {
        self@
    }

    fn key_eq(&self, other: &Self) -> (r: bool) {
        let r = self == other;
        proof {
            if r {
                assert(self@ =~= other@);
            } else if self@ == other@ {
                assert(forall|i: int| 0 <= i < self@.len() ==> self@[i] == other@[i]);
                assert(false);
            }
        }
        r
    }
}

/// The big-endian byte rendering of a 32-bit word.
pub open spec fn u32_be(w: u32) -> Seq<u8> {
    seq![
        (w / 0x1000000) as u8,
        ((w / 0x10000) % 0x100) as u8,
        ((w / 0x100) % 0x100) as u8,
        (w % 0x100) as u8,
    ]
}

/// The canonical byte representation hashed to identify a glyph: the pixel
/// bytes followed by the big-endian width.
pub open spec fn canon_spec(pixels: Seq<u8>, width: u32) -> Seq<u8> {
    pixels + u32_be(width)
}

fn canon_bytes(pixels: &Vec<u8>, width: u32) -> (r: Vec<u8>)
    ensures
        r@ == canon_spec(pixels@, width),
{
    let mut r = copy_bytes(pixels);
    r.push((width / 0x1000000) as u8);
    r.push(((width / 0x10000) % 0x100) as u8);
    r.push(((width / 0x100) % 0x100) as u8);
    r.push((width % 0x100) as u8);
    proof {
        assert(r@ =~= canon_spec(pixels@, width));
    }
    r
}

/// The SHA-256 digest of a byte sequence, named but not defined: the digest
/// is a pure function of the input, and that is all the engine relies on.
pub uninterp spec fn sha256_of(data: Seq<u8>) -> Seq<u8>;

/// Relies on sha2's `Sha256` (FIPS 180-4 SHA-256): the digest depends on
/// the input bytes alone and is 32 bytes long.
#[verifier::external_body]
fn sha256(data: &Vec<u8>) -> (r: Vec<u8>)
    ensures
        r@ == sha256_of(data@),
        r@.len() == 32,
{
    sha2::Sha256::digest(data.as_slice()).to_vec()
}

/// The content hash identifying a glyph with the given pixels and width.
pub open spec fn glyph_hash(pixels: Seq<u8>, width: u32) -> Seq<u8> {
    sha256_of(canon_spec(pixels, width))
}

/// Hash a glyph's canonical byte representation.
pub(crate) fn hash_glyph(pixels: &Vec<u8>, width: u32) -> (r: Vec<u8>)
    ensures
        r@ == glyph_hash(pixels@, width),
{
    let canon = canon_bytes(pixels, width);
    sha256(&canon)
}

/// How many entries of `pixels` hold the palette index `b`.
pub open spec fn count_of(pixels: Seq<u8>, b: int) -> int
    decreases pixels.len(),
{
    if pixels.len() == 0 {
        0
    } else {
        count_of(pixels.drop_last(), b) + if pixels.last() as int == b {
            1int
        } else {
            0int
        }
    }
}

pub proof fn lemma_count_of_bounds(pixels: Seq<u8>, b: int)
    ensures
        0 <= count_of(pixels, b) <= pixels.len(),
    decreases pixels.len(),
{
    if pixels.len() > 0 {
        lemma_count_of_bounds(pixels.drop_last(), b);
    }
}

/// The palette histogram of a pixel sequence: one bucket per possible
/// palette index byte.
pub fn get_palette(colors: &Vec<u8>) -> (r: Vec<u32>)
    requires
        colors@.len() <= MAX_GLYPH_SIZE,
    ensures
        r@.len() == 256,
        forall|b: int| 0 <= b < 256 ==> r@[b] as int == count_of(colors@, b),
{
    let mut r: Vec<u32> = vec![0u32; 256];
    let n = colors.len();
    let mut i: usize = 0;
    proof {
        assert(colors@.take(0) =~= Seq::<u8>::empty());
    }
    while i < n
        invariant
            n == colors@.len() <= MAX_GLYPH_SIZE,
            i <= n,
            r@.len() == 256,
            forall|b: int| 0 <= b < 256 ==> r@[b] as int == count_of(colors@.take(i as int), b),
        decreases n - i,
    {
        let b = colors[i] as usize;
        proof {
            assert forall|c: int| 0 <= c < 256 implies count_of(colors@.take(i + 1), c)
                == count_of(colors@.take(i as int), c) + if b as int == c {
                1int
            } else {
                0int
            } by {
                assert(colors@.take(i + 1).drop_last() =~= colors@.take(i as int));
                assert(colors@.take(i + 1).last() == colors@[i as int]);
            }
            lemma_count_of_bounds(colors@.take(i as int), b as int);
        }
        let count = r[b];
        r.set(b, count + 1);
        i = i + 1;
    }
    proof {
        assert(colors@.take(n as int) =~= colors@);
    }
    r
}

} // verus!
