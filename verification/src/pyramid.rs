//! The resolution pyramid of one image: its levels, their size classes and
//! the choice of the level that suits a wanted resolution.

use crate::key::{is_power_of_two, Pow2, TileRef};
use crate::scale::{
    bit_length,
    lemma_bit_length_unique,
    lemma_leading_zeros,
    lemma_next_power_of_two,
    log_distance,
    next_power_of_two,
    round_up_to_power_of_two,
    MAX_DIMENSION,
};
use vstd::arithmetic::power2::{lemma2_to64, lemma_pow2_pos, lemma_pow2_strictly_increases, pow2};
use vstd::prelude::*;

verus! {

/// One level of a pyramid: the image at one resolution, cut into tiles.
#[derive(Debug, PartialEq, Eq)]
pub struct Thumb {
    /// Width and height of the level in pixels.
    pub img_size: (u32, u32),
    /// The keys of the level's tiles, row by row.
    pub tile_refs: Vec<TileRef>,
}

impl Thumb {
    /// The larger of width and height.
    pub open spec fn spec_max_dimension(self) -> u32 {
        if self.img_size.0 >= self.img_size.1 {
            self.img_size.0
        } else {
            self.img_size.1
        }
    }

    /// The level's nominal size: its larger dimension raised to a power of two.
    pub open spec fn spec_size(self) -> nat {
        next_power_of_two(self.spec_max_dimension() as nat)
    }

    /// The exponent of the level's nominal size.
    pub open spec fn spec_exponent(self) -> nat {
        (bit_length(self.spec_size()) - 1) as nat
    }

    /// The level's nominal size fits a `u32`.
    pub open spec fn wf(self) -> bool {
        self.spec_max_dimension() <= MAX_DIMENSION
    }

    /// Every tile key of the level carries the level's size class.
    pub open spec fn keys_match_size(self) -> bool {
        forall|k: int|
            0 <= k < self.tile_refs@.len() ==> (#[trigger] self.tile_refs@[k]).size_field()
                == self.spec_exponent()
    }

    /// The larger of width and height.
    pub fn max_dimension(&self) -> (r: u32)
        ensures
            r == self.spec_max_dimension(),
    {
        let (w, h) = self.img_size;
        if w >= h {
            w
        } else {
            h
        }
    }

    /// The level's nominal size: the smallest power of two that is at least
    /// its larger dimension.
    pub fn size(&self) -> (r: u32)
        requires
            self.wf(),
        ensures
            r == self.spec_size(),
            is_power_of_two(r),
    {
        let r = round_up_to_power_of_two(self.max_dimension());
        proof {
            lemma_size_is_power(self.spec_max_dimension());
        }
        r
    }

    /// The level's size class, as the exponent of its nominal size.
    pub fn size_class(&self) -> (r: Pow2)
        requires
            self.wf(),
        ensures
            r.0 == self.spec_exponent(),
            r.0 < 32,
    {
        let r = Pow2::from(self.size());
        proof {
            lemma_pow2_pos(r.0 as nat);
            lemma_exponent_of_power(r.0 as nat);
        }
        r
    }
}

/// The nominal size of a dimension that fits is a power of two that fits.
pub proof fn lemma_size_is_power(m: u32)
    requires
        m <= MAX_DIMENSION,
    ensures
        next_power_of_two(m as nat) <= MAX_DIMENSION,
        is_power_of_two(next_power_of_two(m as nat) as u32),
{
    lemma_next_power_of_two(m as nat);
    lemma2_to64();
    let r = next_power_of_two(m as nat);
    let k = choose|k: nat| r == #[trigger] pow2(k);
    if r != 1 {
        assert(r < 2 * m);
    }
    if k >= 32 {
        if k > 32 {
            lemma_pow2_strictly_increases(32, k);
        }
        assert(false);
    }
    if k == 31 {
        assert(r == 0x8000_0000);
    } else {
        lemma_pow2_strictly_increases(k, 31);
    }
    assert(k < 32 && r as u32 == pow2(k));
}

/// A power of two has one bit more than its exponent.
pub proof fn lemma_exponent_of_power(k: nat)
    ensures
        bit_length(pow2(k)) == k + 1,
{
    lemma_pow2_strictly_increases(k, k + 1);
    lemma_bit_length_unique(pow2(k), k + 1);
}

/// The pyramid of one image: its levels from the smallest to the largest.
#[derive(Debug, PartialEq, Eq)]
pub struct Metadata {
    /// The levels, by strictly increasing size class.
    pub thumbs: Vec<Thumb>,
}

/// Whether `levels` can be the levels of a pyramid: there is one at least,
/// each fits, their size classes increase strictly, and every tile key
/// carries the size class of its level.
pub open spec fn valid_levels(levels: Seq<Thumb>) -> bool {
    &&& levels.len() > 0
    &&& forall|i: int| 0 <= i < levels.len() ==> (#[trigger] levels[i]).wf()
    &&& forall|i: int| 0 <= i < levels.len() ==> (#[trigger] levels[i]).keys_match_size()
    &&& forall|i: int, j: int|
        0 <= i < j < levels.len() ==> (#[trigger] levels[i]).spec_size() < (
        #[trigger] levels[j]).spec_size()
}

/// Where `r` stands among `levels` as the nearest to `target_size`: no level
/// is nearer on the logarithmic scale, and every earlier one is farther.
pub open spec fn is_nearest(levels: Seq<Thumb>, target_size: u32, r: int) -> bool {
    &&& 0 <= r < levels.len()
    &&& forall|j: int|
        0 <= j < levels.len() ==> log_distance(target_size, levels[r].spec_size() as u32)
            <= log_distance(target_size, (#[trigger] levels[j]).spec_size() as u32)
    &&& forall|j: int|
        0 <= j < r ==> log_distance(target_size, levels[r].spec_size() as u32) < log_distance(
            target_size,
            (#[trigger] levels[j]).spec_size() as u32,
        )
}

/// Only one level is the nearest to a target.
pub proof fn lemma_nearest_unique(levels: Seq<Thumb>, target_size: u32, a: int, b: int)
    requires
        is_nearest(levels, target_size, a),
        is_nearest(levels, target_size, b),
    ensures
        a == b,
{
    if a < b {
        assert(log_distance(target_size, levels[b].spec_size() as u32) < log_distance(
            target_size,
            levels[a].spec_size() as u32,
        ));
    } else if b < a {
        assert(log_distance(target_size, levels[a].spec_size() as u32) < log_distance(
            target_size,
            levels[b].spec_size() as u32,
        ));
    }
}

/// Whether `thumbs` can be the levels of a pyramid.
pub fn levels_valid(thumbs: &Vec<Thumb>) -> (r: bool)
    ensures
        r == valid_levels(thumbs@),
{
    let n: usize = thumbs.len();
    if n == 0 {
        return false;
    }
    let mut i: usize = 0;
    let mut last: u32 = 0;
    while i < n
        invariant
            n == thumbs@.len(),
            i <= n,
            forall|a: int| 0 <= a < i ==> (#[trigger] thumbs@[a]).wf(),
            forall|a: int| 0 <= a < i ==> (#[trigger] thumbs@[a]).keys_match_size(),
            forall|a: int, b: int|
                0 <= a < b < i ==> (#[trigger] thumbs@[a]).spec_size() < (
                #[trigger] thumbs@[b]).spec_size(),
            i > 0 ==> last == thumbs@[i - 1].spec_size(),
        decreases n - i,
    {
        let thumb = &thumbs[i];
        if thumb.max_dimension() > MAX_DIMENSION {
            assert(!thumbs@[i as int].wf());
            return false;
        }
        let size: u32 = thumb.size();
        if i > 0 && size <= last {
            assert(!(thumbs@[i - 1].spec_size() < thumbs@[i as int].spec_size()));
            return false;
        }
        let class: Pow2 = thumb.size_class();
        let m: usize = thumb.tile_refs.len();
        let mut k: usize = 0;
        while k < m
            invariant
                i < thumbs@.len(),
                *thumb == thumbs@[i as int],
                m == thumb.tile_refs@.len(),
                k <= m,
                class.0 == thumb.spec_exponent(),
                forall|c: int|
                    0 <= c < k ==> (#[trigger] thumb.tile_refs@[c]).size_field()
                        == thumb.spec_exponent(),
            decreases m - k,
        {
            let (held, _, _) = thumb.tile_refs[k].deconstruct();
            if held.0 != class.0 {
                assert(!thumb.keys_match_size());
                return false;
            }
            k += 1;
        }
        assert(thumb.keys_match_size());
        assert forall|a: int, b: int| 0 <= a < b < i + 1 implies (#[trigger] thumbs@[a]).spec_size()
            < (#[trigger] thumbs@[b]).spec_size() by {
            if b == i && a < i - 1 {
                assert(thumbs@[a].spec_size() < thumbs@[i - 1].spec_size());
            }
        }
        last = size;
        i += 1;
    }
    true
}

impl Metadata {
    /// The pyramid is valid.
    pub open spec fn wf(self) -> bool {
        valid_levels(self.thumbs@)
    }

    /// The index of the level nearest to `target_size`.
    pub open spec fn spec_nearest(self, target_size: u32) -> int {
        choose|r: int| is_nearest(self.thumbs@, target_size, r)
    }

    /// A pyramid of the given levels, or `None` where they are not valid.
    pub fn new(thumbs: Vec<Thumb>) -> (r: Option<Metadata>)
        ensures
            r is Some <==> valid_levels(thumbs@),
            r matches Some(m) ==> m.thumbs == thumbs,
    {
        if levels_valid(&thumbs) {
            Some(Metadata { thumbs })
        } else {
            None
        }
    }

    /// Whether the pyramid is valid.
    pub fn valid(&self) -> (r: bool)
        ensures
            r == self.wf(),
    {
        levels_valid(&self.thumbs)
    }

    /// The index of the level whose nominal size is nearest to `target_size`
    /// on the binary logarithmic scale. Of several equally near, the first.
    pub fn nearest(&self, target_size: u32) -> (r: usize)
        requires
            self.wf(),
        ensures
            is_nearest(self.thumbs@, target_size, r as int),
            r == self.spec_nearest(target_size),
    {
        let ts_zeros: u32 = target_size.leading_zeros();
        proof {
            lemma_leading_zeros(target_size);
        }
        let n: usize = self.thumbs.len();
        let mut found: usize = 0;
        let mut found_dist: u32 = 0;
        let mut i: usize = 0;
        while i < n
            invariant
                n == self.thumbs@.len(),
                self.wf(),
                i <= n,
                ts_zeros == 32 - bit_length(target_size as nat),
                i > 0 ==> is_nearest(self.thumbs@.take(i as int), target_size, found as int),
                i > 0 ==> found_dist == log_distance(
                    target_size,
                    self.thumbs@[found as int].spec_size() as u32,
                ),
            decreases n - i,
        {
            let size: u32 = self.thumbs[i].size();
            let size_zeros: u32 = size.leading_zeros();
            proof {
                lemma_leading_zeros(size);
            }
            let dist: u32 = if ts_zeros >= size_zeros {
                ts_zeros - size_zeros
            } else {
                size_zeros - ts_zeros
            };
            assert(dist == log_distance(target_size, self.thumbs@[i as int].spec_size() as u32));
            let ghost before = self.thumbs@.take(i as int);
            let ghost after = self.thumbs@.take(i + 1);
            assert(forall|j: int| 0 <= j < i ==> after[j] == before[j]);
            assert(after[i as int] == self.thumbs@[i as int]);
            if i == 0 || dist < found_dist {
                found = i;
                found_dist = dist;
            }
            i += 1;
        }
        assert(self.thumbs@.take(n as int) =~= self.thumbs@);
        proof {
            lemma_nearest_unique(
                self.thumbs@,
                target_size,
                found as int,
                self.spec_nearest(target_size),
            );
        }
        found
    }
}

/// What is known of an image's pyramid.
#[derive(Debug)]
pub enum MetadataState {
    /// No pyramid has been built yet.
    Missing,
    /// The pyramid.
    Present(Metadata),
    /// Building the pyramid failed; it is not tried again.
    Errored,
}

impl MetadataState {
    /// A pyramid that is present is valid.
    pub open spec fn wf(self) -> bool {
        self matches MetadataState::Present(m) ==> m.wf()
    }

    /// Whether the pyramid, if one is present, is valid.
    pub fn valid(&self) -> (r: bool)
        ensures
            r == self.wf(),
    {
        match self {
            MetadataState::Present(m) => m.valid(),
            _ => true,
        }
    }
}

impl Default for MetadataState {
    fn default() -> (r: Self)
        ensures
            r is Missing,
    {
        MetadataState::Missing
    }
}

/// In a valid pyramid no tile key belongs to two levels.
pub proof fn lemma_levels_disjoint(levels: Seq<Thumb>, i: int, a: int, j: int, b: int)
    requires
        valid_levels(levels),
        0 <= i < levels.len(),
        0 <= j < levels.len(),
        i != j,
        0 <= a < levels[i].tile_refs@.len(),
        0 <= b < levels[j].tile_refs@.len(),
    ensures
        levels[i].tile_refs@[a] != levels[j].tile_refs@[b],
{
    assert(levels[i].keys_match_size());
    assert(levels[j].keys_match_size());
    if i < j {
        lemma_size_orders_exponent(levels[i], levels[j]);
    } else {
        lemma_size_orders_exponent(levels[j], levels[i]);
    }
}

/// Of two levels that fit, the one of smaller nominal size has the smaller exponent.
proof fn lemma_size_orders_exponent(x: Thumb, y: Thumb)
    requires
        x.wf(),
        y.wf(),
        x.spec_size() < y.spec_size(),
    ensures
        x.spec_exponent() < y.spec_exponent(),
{
    lemma_next_power_of_two(x.spec_max_dimension() as nat);
    lemma_next_power_of_two(y.spec_max_dimension() as nat);
    let kx = choose|k: nat| x.spec_size() == #[trigger] pow2(k);
    let ky = choose|k: nat| y.spec_size() == #[trigger] pow2(k);
    lemma_exponent_of_power(kx);
    lemma_exponent_of_power(ky);
    if kx > ky {
        lemma_pow2_strictly_increases(ky, kx);
    }
}

} // verus!
