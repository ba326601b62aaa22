//! The packed 64-bit identifier of a stored tile.
//!
//! A key is laid out, from the most significant bit down, as an 8-bit
//! size-class exponent, a 40-bit tile index and a 16-bit chunk id. The layout
//! is what the store persists, so every contract here speaks of it in plain
//! arithmetic on the 64-bit value.

use vstd::arithmetic::power2::pow2;
use vstd::bits::{lemma_u32_pow2_no_overflow, lemma_u32_shl_is_mul};
use vstd::prelude::*;
use vstd::std_specs::bits::{axiom_u32_leading_zeros, u32_leading_zeros};

verus! {

/// Number of distinct tile indices: the index field is 40 bits wide.
pub const INDEX_SPAN: u64 = 0x100_0000_0000;

/// Weight of the index field inside a key: it starts at bit 16.
pub const INDEX_UNIT: u64 = 0x1_0000;

/// Weight of the size field inside a key: it starts at bit 56.
pub const SIZE_UNIT: u64 = 0x100_0000_0000_0000;

/// Whether `n` is `2^k` for some exponent `k` that a `u32` can hold.
pub open spec fn is_power_of_two(n: u32) -> bool {
    exists|k: nat| k < 32 && n == #[trigger] pow2(k)
}

/// The exponent of a power-of-two resolution class.
#[derive(Debug, PartialEq, Eq, Structural, Clone, Copy)]
pub struct Pow2(pub u8);

/// A `u32` with exactly bit `k` set has `31 - k` leading zeros.
proof fn lemma_single_bit_exponent(n: u32, k: nat)
    requires
        k < 32,
        n == pow2(k),
    ensures
        u32_leading_zeros(n) == 31 - k,
{
    let kk: u32 = k as u32;
    lemma_u32_pow2_no_overflow(k);
    lemma_u32_shl_is_mul(1u32, kk);
    assert(n == 1u32 << kk);
    axiom_u32_leading_zeros(n);
    let z: u32 = u32_leading_zeros(n);
    assert(n != 0) by (bit_vector)
        requires
            n == 1u32 << kk,
            kk < 32,
    ;
    assert(z < 32);
    let r: u32 = (31 - z) as u32;
    assert(r == kk) by (bit_vector)
        requires
            n == 1u32 << kk,
            kk < 32,
            r < 32,
            (n >> r) & 1u32 != 0u32,
    ;
}

impl Pow2 {
    /// The exponent of `i`, which must be a power of two.
    pub fn from(i: u32) -> (r: Self)
        requires
            is_power_of_two(i),
        ensures
            r.0 < 32,
            pow2(r.0 as nat) == i,
    {
        proof {
            let k = choose|k: nat| k < 32 && i == #[trigger] pow2(k);
            lemma_single_bit_exponent(i, k);
        }
        let zeros: u32 = i.leading_zeros();
        Pow2((32 - zeros - 1) as u8)
    }

    /// The resolution `2^e` for this exponent `e`, which must fit a `u32`.
    pub fn u32(&self) -> (r: u32)
        requires
            self.0 < 32,
        ensures
            r == pow2(self.0 as nat),
    {
        proof {
            lemma_u32_pow2_no_overflow(self.0 as nat);
            lemma_u32_shl_is_mul(1u32, self.0 as u32);
        }
        1u32 << (self.0 as u32)
    }
}

/// The 64-bit key of one tile.
#[derive(Debug, PartialEq, Eq, Structural, PartialOrd, Ord, Hash, Copy, Clone, Default)]
pub struct TileRef(pub u64);

impl TileRef {
    /// The key value that holds the three fields, the index reduced to 40 bits.
    pub open spec fn pack(size: u8, index: u64, chunk: u16) -> int {
        size * SIZE_UNIT + (index % INDEX_SPAN) * INDEX_UNIT + chunk
    }

    /// The size-class exponent held in bits 56 to 63.
    pub open spec fn size_field(self) -> int {
        (self.0 / SIZE_UNIT) as int
    }

    /// The tile index held in bits 16 to 55.
    pub open spec fn index_field(self) -> int {
        ((self.0 / INDEX_UNIT) % INDEX_SPAN) as int
    }

    /// The chunk id held in bits 0 to 15.
    pub open spec fn chunk_field(self) -> int {
        (self.0 % INDEX_UNIT) as int
    }

    /// Packs a size class, a tile index and a chunk id into a key. The index
    /// wraps modulo `2^40`.
    pub fn new(size: Pow2, index: u64, chunk: u16) -> (r: Self)
        ensures
            r.0 == Self::pack(size.0, index, chunk),
    {
        let s: u8 = size.0;
        let low: u64 = index % INDEX_SPAN;
        let v: u64 = (chunk as u64) | (low << 16) | ((s as u64) << 56);
        assert(v == (s as u64) * 0x100_0000_0000_0000u64 + low * 0x1_0000u64 + (chunk as u64))
            by (bit_vector)
            requires
                v == (chunk as u64) | (low << 16) | ((s as u64) << 56),
                low < 0x100_0000_0000u64,
        ;
        TileRef(v)
    }

    /// Unpacks the key into its size class, tile index and chunk id.
    pub fn deconstruct(&self) -> (r: (Pow2, u64, u16))
        ensures
            r.0.0 == self.size_field(),
            r.1 == self.index_field(),
            r.2 == self.chunk_field(),
    {
        let v: u64 = self.0;
        let size: u8 = ((v & 0xFF00_0000_0000_0000u64) >> 56) as u8;
        let index: u64 = (v & 0x00FF_FFFF_FFFF_0000u64) >> 16;
        let chunk: u16 = (v & 0x0000_0000_0000_FFFFu64) as u16;
        assert((v & 0xFF00_0000_0000_0000u64) >> 56 == v / 0x100_0000_0000_0000u64)
            by (bit_vector);
        assert((v & 0xFF00_0000_0000_0000u64) >> 56 < 0x100u64) by (bit_vector);
        assert((v & 0x00FF_FFFF_FFFF_0000u64) >> 16 == (v / 0x1_0000u64) % 0x100_0000_0000u64)
            by (bit_vector);
        assert(v & 0x0000_0000_0000_FFFFu64 == v % 0x1_0000u64) by (bit_vector);
        (Pow2(size), index, chunk)
    }

    /// Unpacking a packed key gives the fields back: the size class and the
    /// chunk id as they were, the index reduced modulo `2^40`, so unchanged
    /// when it was below `2^40`.
    pub proof fn lemma_round_trip(size: u8, index: u64, chunk: u16)
        ensures
            0 <= Self::pack(size, index, chunk) <= u64::MAX,
            TileRef(Self::pack(size, index, chunk) as u64).size_field() == size,
            TileRef(Self::pack(size, index, chunk) as u64).index_field() == index % INDEX_SPAN,
            TileRef(Self::pack(size, index, chunk) as u64).chunk_field() == chunk,
            index < INDEX_SPAN ==> TileRef(Self::pack(size, index, chunk) as u64).index_field()
                == index,
    {
        let m: u64 = index % INDEX_SPAN;
        let v: int = Self::pack(size, index, chunk);
        assert(v == size * 0x100_0000_0000_0000int + m * 0x1_0000int + chunk);
        assert(0 <= v <= u64::MAX);
        // v / 2^16 == size * 2^40 + m, and v % 2^16 == chunk
        let hi: int = size * 0x100_0000_0000int + m;
        assert(v == hi * 0x1_0000int + chunk);
        assert(v / 0x1_0000int == hi && v % 0x1_0000int == chunk) by (nonlinear_arith)
            requires
                v == hi * 0x1_0000int + chunk,
                0 <= chunk < 0x1_0000int,
        ;
        assert(hi / 0x100_0000_0000int == size && hi % 0x100_0000_0000int == m)
            by (nonlinear_arith)
            requires
                hi == size * 0x100_0000_0000int + m,
                0 <= m < 0x100_0000_0000int,
        ;
        assert(v / 0x100_0000_0000_0000int == size) by (nonlinear_arith)
            requires
                v == size * 0x100_0000_0000_0000int + m * 0x1_0000int + chunk,
                0 <= m * 0x1_0000int + chunk < 0x100_0000_0000_0000int,
        ;
    }
}

} // verus!
