//! The scheduler's state: the images, the tile cache, the work queues and the
//! outstanding thumbnail jobs, with the progress of the current loading pass.
//!
//! The scheduler does no input or output itself. It says what is to be done
//! next (measure how far off-screen an image is, fetch a tile, start a
//! thumbnail job) and is told what came of it.

use crate::cache::TileCache;
use crate::image::Image;
use crate::jobs::JobSet;
use crate::key::TileRef;
use crate::pyramid::{Metadata, MetadataState};
use crate::queue::{Band, WorkQueues};
use crate::scale::{next_power_of_two, round_up_to_power_of_two, MAX_DIMENSION};
use vstd::arithmetic::div_mod::lemma_basic_div;
use vstd::arithmetic::power2::{lemma2_to64, lemma_pow2_strictly_increases, pow2};
use vstd::bits::lemma_u32_shr_is_div;
use vstd::prelude::*;

verus! {

/// How far a loading pass has come.
#[derive(Debug, PartialEq, Eq, Structural, Clone, Copy)]
pub enum Pass {
    /// No pass is under way.
    Idle,
    /// `remaining` more entries of `band`'s queue are to be taken.
    Scan { band: Band, remaining: usize },
    /// `image` was taken from `band`'s queue and waits for its level-of-detail shift.
    Lod { band: Band, remaining: usize, image: usize },
    /// The tiles of `level` are being loaded for `image`, on the way to
    /// `target`; those before `cursor` are in the cache.
    Load { band: Band, remaining: usize, image: usize, level: usize, target: usize, cursor: usize },
}

/// What the caller of the loader does next.
#[derive(Debug, PartialEq, Eq, Structural, Clone, Copy)]
pub enum Step {
    /// Nothing: ask again.
    Again,
    /// Say by how many levels `image` is to be degraded for being off-screen.
    Lod { image: usize },
    /// Unless the deadline has passed, fetch and decode the tile under `key`.
    Fetch { key: TileRef },
    /// The pass is over.
    Done,
}

/// The level that is loaded next on the way from `current` to `target`: one
/// step nearer, where no level counts as one below the lowest.
pub open spec fn step_toward(current: Option<usize>, target: usize) -> usize {
    match current {
        None => 0,
        Some(c) => if target > c {
            (c + 1) as usize
        } else if target < c {
            (c - 1) as usize
        } else {
            c
        },
    }
}

/// The number of steps from `current` to `target`.
pub open spec fn level_gap(current: Option<usize>, target: usize) -> nat {
    match current {
        None => (target + 1) as nat,
        Some(c) => if target >= c {
            (target - c) as nat
        } else {
            (c - target) as nat
        },
    }
}

/// The level that is loaded after one pass with time enough.
pub open spec fn advance(current: Option<usize>, target: usize) -> Option<usize> {
    if current == Some(target) {
        current
    } else {
        Some(step_toward(current, target))
    }
}

/// The level that is loaded after `passes` passes with time enough.
pub open spec fn advance_by(current: Option<usize>, target: usize, passes: nat) -> Option<usize>
    decreases passes,
{
    if passes == 0 {
        current
    } else {
        advance_by(advance(current, target), target, (passes - 1) as nat)
    }
}

/// The resolution that is wanted of an image `shift` levels of detail below
/// `target_size`: `target_size / 2^shift`.
pub open spec fn effective_target(target_size: u32, shift: u32) -> u32 {
    (target_size as nat / pow2(shift as nat)) as u32
}

/// The position of the first of `keys`, from `from` on, that `tiles` does not
/// hold, or their number where it holds them all.
pub open spec fn first_absent<T>(keys: Seq<TileRef>, tiles: Map<u64, T>, from: int) -> int
    decreases keys.len() - from,
{
    if from >= keys.len() {
        keys.len() as int
    } else if !tiles.contains_key(keys[from].0) {
        from
    } else {
        first_absent(keys, tiles, from + 1)
    }
}

/// Whether `at` is the position of the first of `keys`, from `from` on, that
/// `tiles` does not hold, or their number where it holds them all.
pub open spec fn is_first_absent<T>(
    keys: Seq<TileRef>,
    tiles: Map<u64, T>,
    from: int,
    at: int,
) -> bool {
    &&& from <= at <= keys.len()
    &&& forall|k: int| from <= k < at ==> tiles.contains_key((#[trigger] keys[k]).0)
    &&& at < keys.len() ==> !tiles.contains_key(keys[at].0)
}

/// `first_absent` is what its name says: every key from `from` up to it is
/// held, and the key at it, if there is one, is not.
pub proof fn lemma_first_absent<T>(keys: Seq<TileRef>, tiles: Map<u64, T>, from: int)
    requires
        0 <= from <= keys.len(),
    ensures
        is_first_absent(keys, tiles, from, first_absent(keys, tiles, from)),
    decreases keys.len() - from,
{
    if from < keys.len() && tiles.contains_key(keys[from].0) {
        lemma_first_absent(keys, tiles, from + 1);
    }
}

/// A level whose first tiles are in the cache is taken up where it was left:
/// looking for the first tile to fetch from the start finds the same tile as
/// looking from behind the tiles that are held.
pub proof fn lemma_resume<T>(keys: Seq<TileRef>, tiles: Map<u64, T>, held: int)
    requires
        0 <= held <= keys.len(),
        forall|k: int| 0 <= k < held ==> tiles.contains_key((#[trigger] keys[k]).0),
    ensures
        first_absent(keys, tiles, 0) == first_absent(keys, tiles, held),
        first_absent(keys, tiles, 0) >= held,
    decreases held,
{
    lemma_first_absent(keys, tiles, held);
    if held > 0 {
        lemma_resume_from(keys, tiles, 0, held);
    }
}

/// Looking for the first tile to fetch from `from` or from `held` finds the
/// same tile where every tile between the two is held.
proof fn lemma_resume_from<T>(keys: Seq<TileRef>, tiles: Map<u64, T>, from: int, held: int)
    requires
        0 <= from <= held <= keys.len(),
        forall|k: int| from <= k < held ==> tiles.contains_key((#[trigger] keys[k]).0),
    ensures
        first_absent(keys, tiles, from) == first_absent(keys, tiles, held),
    decreases held - from,
{
    if from < held {
        assert(tiles.contains_key(keys[from].0));
        lemma_resume_from(keys, tiles, from + 1, held);
    }
}

/// One pass closes the gap to the target by one step, and changes the level
/// by one step at most; where there is no gap, nothing changes.
pub proof fn lemma_advance(current: Option<usize>, target: usize)
    requires
        target < usize::MAX,
    ensures
        level_gap(current, target) == 0 <==> current == Some(target),
        level_gap(current, target) > 0 ==> level_gap(advance(current, target), target)
            == level_gap(current, target) - 1,
        level_gap(current, target) == 0 ==> advance(current, target) == current,
        current is None ==> advance(current, target) == Some(0usize),
        current matches Some(c) ==> (advance(current, target) matches Some(d) && c - 1 <= d <= c
            + 1),
{
}

/// With time enough in every pass, the target is loaded after exactly as
/// many passes as there are steps to it: not before, and from then on.
pub proof fn lemma_passes_to_target(current: Option<usize>, target: usize, passes: nat)
    requires
        target < usize::MAX,
    ensures
        level_gap(advance_by(current, target, passes), target) == (if passes <= level_gap(
            current,
            target,
        ) {
            level_gap(current, target) - passes
        } else {
            0
        }),
        advance_by(current, target, passes) == Some(target) <==> passes >= level_gap(
            current,
            target,
        ),
    decreases passes,
{
    lemma_advance(current, target);
    if passes > 0 {
        lemma_passes_to_target(advance(current, target), target, (passes - 1) as nat);
        lemma_advance(advance_by(current, target, passes), target);
    }
}

/// The scheduler's state. `T` is a decoded tile, ready to be drawn.
pub struct Scheduler<T> {
    /// The images of the collection.
    pub images: Vec<Image>,
    /// The decoded tiles that are in memory.
    pub tiles: TileCache<T>,
    /// The images whose tiles are to be loaded, by band.
    pub cache_todo: WorkQueues,
    /// The images whose pyramid is to be built, by band.
    pub thumb_todo: WorkQueues,
    /// The images whose pyramid is being built.
    pub thumb_jobs: JobSet,
    /// The number of worker threads that build pyramids.
    pub thumb_threads: usize,
    /// The first of the tile indices that are reserved for the images.
    pub base_id: u64,
    /// The resolution that the current pass aims at.
    pub target_size: u32,
    /// The progress of the current pass.
    pub pass: Pass,
}

impl<T> Scheduler<T> {
    /// The pyramid of image `i`, which has one.
    pub open spec fn pyramid(self, i: int) -> Metadata {
        match self.images@[i].metadata {
            MetadataState::Present(m) => m,
            _ => arbitrary(),
        }
    }

    /// The tile keys of level `level` of image `i`.
    pub open spec fn keys(self, i: int, level: int) -> Seq<TileRef> {
        self.pyramid(i).thumbs@[level].tile_refs@
    }

    /// Image `i` exists, has a pyramid, and `level` is one of its levels.
    pub open spec fn has_level(self, i: int, level: int) -> bool {
        &&& 0 <= i < self.images@.len()
        &&& self.images@[i].metadata is Present
        &&& 0 <= level < self.pyramid(i).thumbs@.len()
    }

    /// The pass's progress fits the queues, the images and the cache.
    pub open spec fn pass_wf(self) -> bool {
        match self.pass {
            Pass::Idle => true,
            Pass::Scan { band, remaining } => remaining <= self.cache_todo.band(band).len(),
            Pass::Lod { band, remaining, image } => {
                &&& remaining <= self.cache_todo.band(band).len()
                &&& self.has_level(image as int, 0)
            },
            Pass::Load { band, remaining, image, level, target, cursor } => {
                &&& remaining <= self.cache_todo.band(band).len()
                &&& self.has_level(image as int, level as int)
                &&& self.has_level(image as int, target as int)
                &&& level == step_toward(self.images@[image as int].size, target)
                &&& self.images@[image as int].size != Some(target)
                &&& cursor <= self.keys(image as int, level as int).len()
                &&& forall|k: int|
                    0 <= k < cursor ==> self.tiles@.contains_key(
                        (#[trigger] self.keys(image as int, level as int)[k]).0,
                    )
            },
        }
    }

    /// The state is consistent.
    pub open spec fn wf(self) -> bool {
        &&& forall|i: int| 0 <= i < self.images@.len() ==> (#[trigger] self.images@[i]).wf()
        &&& self.cache_todo.below(self.images@.len() as int)
        &&& self.thumb_todo.below(self.images@.len() as int)
        &&& self.thumb_jobs@.finite()
        &&& forall|i: usize| #[trigger]
            self.thumb_jobs@.contains(i) ==> i < self.images@.len() && self.images@[i as int].metadata
                is Missing
        &&& self.base_id + self.images@.len() <= u64::MAX
        &&& self.pass_wf()
    }

    /// The thumbnail jobs, the number of threads and the reserved tile
    /// indices are the same in `self` and `post`.
    pub open spec fn same_jobs(self, post: Self) -> bool {
        &&& post.thumb_jobs@ == self.thumb_jobs@
        &&& post.thumb_threads == self.thumb_threads
        &&& post.base_id == self.base_id
    }

    /// The images and the tiles are the same in `self` and `post`.
    pub open spec fn same_data(self, post: Self) -> bool {
        &&& post.images == self.images
        &&& post.tiles == self.tiles
    }

    /// A scheduler for `images`, with nothing cached, queued or under way.
    pub fn new(images: Vec<Image>, thumb_threads: usize, base_id: u64) -> (r: Self)
        requires
            forall|i: int| 0 <= i < images@.len() ==> (#[trigger] images@[i]).wf(),
            base_id + images@.len() <= u64::MAX,
        ensures
            r.wf(),
            r.images == images,
            r.tiles@ == Map::<u64, T>::empty(),
            r.cache_todo.visible@.len() == 0,
            r.cache_todo.hidden@.len() == 0,
            r.thumb_todo.visible@.len() == 0,
            r.thumb_todo.hidden@.len() == 0,
            r.thumb_jobs@ == Set::<usize>::empty(),
            r.thumb_threads == thumb_threads,
            r.base_id == base_id,
            r.pass == Pass::Idle,
    {
        Scheduler {
            images,
            tiles: TileCache::new(),
            cache_todo: WorkQueues::new(),
            thumb_todo: WorkQueues::new(),
            thumb_jobs: JobSet::new(),
            thumb_threads,
            base_id,
            target_size: 0,
            pass: Pass::Idle,
        }
    }
}

/// The resolution that a pass aims at where images are drawn `pixels` wide:
/// `pixels` raised to a power of two, and `2^31` where that would not fit.
pub fn target_size(pixels: u32) -> (r: u32)
    ensures
        r == next_power_of_two(
            if pixels <= MAX_DIMENSION {
                pixels as nat
            } else {
                MAX_DIMENSION as nat
            },
        ),
{
    if pixels <= MAX_DIMENSION {
        round_up_to_power_of_two(pixels)
    } else {
        round_up_to_power_of_two(MAX_DIMENSION)
    }
}

/// The resolution `shift` levels of detail below `target_size`.
pub fn shift_target(target_size: u32, shift: u32) -> (r: u32)
    ensures
        r == effective_target(target_size, shift),
{
    if shift >= 32 {
        proof {
            lemma2_to64();
            if shift > 32 {
                lemma_pow2_strictly_increases(32, shift as nat);
            }
            lemma_basic_div(target_size as int, pow2(shift as nat) as int);
        }
        0
    } else {
        proof {
            lemma_u32_shr_is_div(target_size, shift);
        }
        target_size >> shift
    }
}

} // verus!
