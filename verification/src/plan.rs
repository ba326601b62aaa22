//! Laying out a pyramid that is to be built: the sizes of its levels and the
//! keys of their tiles.

use crate::key::{Pow2, TileRef};
use crate::pyramid::Thumb;
use crate::scale::{next_power_of_two, MAX_DIMENSION};
use vstd::prelude::*;

verus! {

/// Half of `d`, rounded up.
pub open spec fn half(d: u32) -> u32 {
    (d / 2 + d % 2) as u32
}

/// The size of the next smaller level.
pub open spec fn halved(size: (u32, u32)) -> (u32, u32) {
    (half(size.0), half(size.1))
}

/// The larger of width and height.
pub open spec fn larger_side(size: (u32, u32)) -> u32 {
    if size.0 >= size.1 {
        size.0
    } else {
        size.1
    }
}

/// Whether a level of this size has a smaller level below it: it is larger
/// than the base resolution, and more than a pixel.
pub open spec fn splits(size: (u32, u32), base: u32) -> bool {
    larger_side(size) > base && larger_side(size) > 1
}

/// The key of tile `k` of a level of size class `class` whose tiles are
/// numbered from `first_index`: chunk 0 of index `first_index + k`.
pub open spec fn tile_key(class: u8, first_index: u64, k: int) -> int {
    TileRef::pack(class, ((first_index + k) % 0x1_0000_0000_0000_0000) as u64, 0)
}

/// The level below a level of more than a pixel is of the next lower size
/// class: its nominal size is half the other's.
pub proof fn lemma_halved_size(size: (u32, u32))
    requires
        larger_side(size) > 1,
    ensures
        larger_side(halved(size)) == half(larger_side(size)),
        2 * next_power_of_two(larger_side(halved(size)) as nat) == next_power_of_two(
            larger_side(size) as nat,
        ),
{
    let m = larger_side(size);
    assert(half(m) == (m + 1) / 2);
}

/// The sizes of the levels of a pyramid for an image of size `img_size`,
/// the smallest first: the last is the image itself, each other is half the
/// next, and the first is the only one that is within `base`.
pub fn level_sizes(img_size: (u32, u32), base: u32) -> (r: Vec<(u32, u32)>)
    ensures
        r@.len() >= 1,
        r@[r@.len() - 1] == img_size,
        forall|k: int| 0 <= k < r@.len() - 1 ==> #[trigger] r@[k] == halved(r@[k + 1]),
        forall|k: int| 1 <= k < r@.len() ==> splits(#[trigger] r@[k], base),
        !splits(r@[0], base),
{
    let mut down: Vec<(u32, u32)> = Vec::new();
    let mut size: (u32, u32) = img_size;
    down.push(size);
    loop
        invariant
            down@.len() >= 1,
            down@[0] == img_size,
            down@[down@.len() - 1] == size,
            forall|k: int| 0 <= k < down@.len() - 1 ==> #[trigger] down@[k + 1] == halved(down@[k]),
            forall|k: int| 0 <= k < down@.len() - 1 ==> splits(#[trigger] down@[k], base),
        ensures
            !splits(size, base),
        decreases larger_side(size),
    {
        let larger: u32 = if size.0 >= size.1 {
            size.0
        } else {
            size.1
        };
        if larger <= base || larger <= 1 {
            break ;
        }
        size = (size.0 / 2 + size.0 % 2, size.1 / 2 + size.1 % 2);
        down.push(size);
    }
    let n: usize = down.len();
    let mut r: Vec<(u32, u32)> = Vec::new();
    let mut i: usize = 0;
    while i < n
        invariant
            n == down@.len(),
            i <= n,
            r@.len() == i,
            forall|k: int| 0 <= k < i ==> #[trigger] r@[k] == down@[n - 1 - k],
        decreases n - i,
    {
        r.push(down[n - 1 - i]);
        i += 1;
    }
    proof {
        assert forall|k: int| 0 <= k < r@.len() - 1 implies #[trigger] r@[k] == halved(
            r@[k + 1],
        ) by {
            assert(r@[k + 1] == down@[n - 2 - k]);
            assert(down@[(n - 2 - k) + 1] == halved(down@[n - 2 - k]));
        }
        assert forall|k: int| 1 <= k < r@.len() implies splits(#[trigger] r@[k], base) by {
            assert(r@[k] == down@[n - 1 - k]);
        }
    }
    r
}

impl Thumb {
    /// A level of size `img_size` cut into `grid_size` tiles, with the keys
    /// of its tiles: row by row, they carry the level's size class, the
    /// indices from `first_index` on, and chunk 0.
    pub fn keyed(img_size: (u32, u32), grid_size: (u32, u32), first_index: u64) -> (r: Thumb)
        requires
            larger_side(img_size) <= MAX_DIMENSION,
            grid_size.0 * grid_size.1 <= usize::MAX,
        ensures
            r.img_size == img_size,
            r.wf(),
            r.keys_match_size(),
            r.tile_refs@.len() == grid_size.0 * grid_size.1,
            forall|k: int|
                0 <= k < r.tile_refs@.len() ==> (#[trigger] r.tile_refs@[k]).0 == tile_key(
                    r.spec_exponent() as u8,
                    first_index,
                    k,
                ),
    {
        let mut r = Thumb { img_size, tile_refs: Vec::new() };
        let class: Pow2 = r.size_class();
        assert(grid_size.0 * grid_size.1 <= 0xFFFF_FFFF * 0xFFFF_FFFF) by (nonlinear_arith)
            requires
                0 <= grid_size.0 <= 0xFFFF_FFFF,
                0 <= grid_size.1 <= 0xFFFF_FFFF,
        ;
        let count: u64 = grid_size.0 as u64 * grid_size.1 as u64;
        let mut k: u64 = 0;
        while k < count
            invariant
                r.img_size == img_size,
                class.0 == r.spec_exponent(),
                k <= count,
                r.tile_refs@.len() == k,
                forall|j: int|
                    0 <= j < k ==> (#[trigger] r.tile_refs@[j]).0 == tile_key(
                        class.0,
                        first_index,
                        j,
                    ),
                forall|j: int|
                    0 <= j < k ==> (#[trigger] r.tile_refs@[j]).size_field() == class.0,
            decreases count - k,
        {
            let index: u64 = first_index.wrapping_add(k);
            let key = TileRef::new(Pow2(class.0), index, 0);
            proof {
                TileRef::lemma_round_trip(class.0, index, 0);
            }
            r.tile_refs.push(key);
            k += 1;
        }
        r
    }
}

} // verus!
