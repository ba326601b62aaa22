//! The tile cache loader: one loading pass, taken step by step.
//!
//! A pass takes the images that are queued at its start, the visible band
//! first. Each image moves one level nearer to the level that suits the
//! wanted resolution, and no further in that pass. The caller runs the pass:
//! it asks for the next step, does what the step asks for, and reports back.

use crate::cache::{lemma_level_keys_apart, level_keys, other_keys};
use crate::key::TileRef;
use crate::pyramid::{Metadata, MetadataState};
use crate::queue::Band;
use crate::sched::{
    advance,
    effective_target,
    first_absent,
    shift_target,
    step_toward,
    Pass,
    Scheduler,
    Step,
};
use vstd::pervasive::unreached;
use vstd::prelude::*;

verus! {

impl<T> Scheduler<T> {
    /// The progress of the pass once `image`, taken from `band`, has been
    /// held against the resolution `wanted`: on to the next image where the
    /// nearest level is loaded already, else the loading of the next level
    /// towards it.
    pub open spec fn chosen(self, band: Band, remaining: usize, image: usize, wanted: u32) -> Pass {
        let target = self.pyramid(image as int).spec_nearest(wanted) as usize;
        let current = self.images@[image as int].size;
        if current == Some(target) {
            Pass::Scan { band, remaining }
        } else {
            Pass::Load {
                band,
                remaining,
                image,
                level: step_toward(current, target),
                target,
                cursor: 0,
            }
        }
    }

    /// The queue of `band` once the image that the pass has in hand, if it
    /// has one, is put back at its front.
    pub open spec fn suspended(self, band: Band) -> Seq<usize> {
        match self.pass {
            Pass::Lod { band: b, image, .. } if b == band => seq![image] + self.cache_todo.band(
                band,
            ),
            Pass::Load { band: b, image, .. } if b == band => seq![image] + self.cache_todo.band(
                band,
            ),
            _ => self.cache_todo.band(band),
        }
    }

    /// The cache holds every tile of `level` of image `i` and no tile of
    /// another of its levels.
    pub open spec fn exclusive(self, i: int, level: int) -> bool {
        &&& forall|k: u64| #[trigger]
            level_keys(self.pyramid(i), level).contains(k) ==> self.tiles@.contains_key(k)
        &&& forall|k: u64| #[trigger]
            other_keys(self.pyramid(i), level).contains(k) ==> !self.tiles@.contains_key(k)
    }

    /// The progress of the pass once the shift that it waits for is reported.
    pub open spec fn after_lod(self, shift: u32) -> Pass {
        match self.pass {
            Pass::Lod { band, remaining, image } => self.chosen(
                band,
                remaining,
                image,
                effective_target(self.target_size, shift),
            ),
            _ => self.pass,
        }
    }

    /// Where `post` has another level loaded than `self` for the image whose
    /// level `self` was loading, the cache of `post` holds that level's
    /// tiles and no other of that image.
    pub open spec fn level_change_exclusive(self, post: Self) -> bool {
        self.pass matches Pass::Load { image, level, .. } ==> (post.images@[image as int].size
            != self.images@[image as int].size ==> post.exclusive(image as int, level as int))
    }

    /// What handing over a fetched tile does.
    pub open spec fn installed(self, post: Self, tile: T) -> bool {
        match self.pass {
            Pass::Load { band, remaining, image, level, target, cursor } => {
                let keys = self.keys(image as int, level as int);
                if cursor < keys.len() {
                    &&& post.tiles@ == self.tiles@.insert(keys[cursor as int].0, tile)
                    &&& post.pass == Pass::Load {
                        band,
                        remaining,
                        image,
                        level,
                        target,
                        cursor: (cursor + 1) as usize,
                    }
                } else {
                    post.tiles == self.tiles && post.pass == self.pass
                }
            },
            _ => post.tiles == self.tiles && post.pass == self.pass,
        }
    }

    /// What giving up a level does.
    pub open spec fn aborted(self, post: Self, r: Option<TileRef>) -> bool {
        match self.pass {
            Pass::Load { band, remaining, image, level, cursor, .. } => {
                let keys = self.keys(image as int, level as int);
                if cursor < keys.len() {
                    &&& r == Some(keys[cursor as int])
                    &&& post.pass == Pass::Scan { band, remaining }
                } else {
                    r is None && post.pass == self.pass
                }
            },
            _ => r is None && post.pass == self.pass,
        }
    }

    /// The pass's progress fits the images and the cache, whatever the queues hold.
    pub open spec fn pass_wf_but_queue(self) -> bool {
        match self.pass {
            Pass::Load { image, level, target, cursor, .. } => {
                &&& self.has_level(image as int, level as int)
                &&& self.has_level(image as int, target as int)
                &&& level == step_toward(self.images@[image as int].size, target)
                &&& self.images@[image as int].size != Some(target)
                &&& cursor == 0
            },
            _ => true,
        }
    }

    /// What taking the image at the front of `band` does.
    pub open spec fn taken(self, post: Self, r: Step, band: Band, remaining: usize) -> bool {
        let i = self.cache_todo.band(band)[0];
        let rest = (remaining - 1) as usize;
        &&& self.same_data(post)
        &&& post.cache_todo.band(band) == self.cache_todo.band(band).skip(1)
        &&& post.cache_todo.other(band) == self.cache_todo.other(band)
        &&& post.thumb_todo.other(band) == self.thumb_todo.other(band)
        &&& match self.images@[i as int].metadata {
            MetadataState::Missing => {
                &&& post.thumb_todo.band(band) == self.thumb_todo.band(band).push(i)
                &&& post.pass == Pass::Scan { band, remaining: rest }
                &&& r == Step::Again
            },
            MetadataState::Errored => {
                &&& post.thumb_todo.band(band) == self.thumb_todo.band(band)
                &&& post.pass == Pass::Scan { band, remaining: rest }
                &&& r == Step::Again
            },
            MetadataState::Present(_) => {
                &&& post.thumb_todo.band(band) == self.thumb_todo.band(band)
                &&& match band {
                    Band::Visible => {
                        &&& post.pass == self.chosen(band, rest, i, self.target_size)
                        &&& r == Step::Again
                    },
                    Band::Hidden => {
                        &&& post.pass == Pass::Lod { band, remaining: rest, image: i }
                        &&& r == (Step::Lod { image: i })
                    },
                }
            },
        }
    }

    /// What going on with the loading of a level does.
    pub open spec fn loaded(
        self,
        post: Self,
        r: Step,
        band: Band,
        remaining: usize,
        image: usize,
        level: usize,
        target: usize,
        cursor: usize,
    ) -> bool {
        let keys = self.keys(image as int, level as int);
        let at = first_absent(keys, self.tiles@, cursor as int);
        &&& post.thumb_todo == self.thumb_todo
        &&& post.cache_todo.other(band) == self.cache_todo.other(band)
        &&& if at < keys.len() {
            &&& self.same_data(post)
            &&& post.cache_todo.band(band) == self.cache_todo.band(band)
            &&& post.pass == Pass::Load { band, remaining, image, level, target, cursor: at as usize }
            &&& r == (Step::Fetch { key: keys[at] })
        } else {
            &&& post.tiles@ == self.tiles@.remove_keys(
                other_keys(self.pyramid(image as int), level as int),
            )
            &&& post.images@.len() == self.images@.len()
            &&& forall|j: int|
                0 <= j < self.images@.len() && j != image ==> #[trigger] post.images@[j]
                    == self.images@[j]
            &&& post.images@[image as int].file == self.images@[image as int].file
            &&& post.images@[image as int].metadata == self.images@[image as int].metadata
            &&& post.images@[image as int].size == Some(level)
            &&& post.cache_todo.band(band) == (if level != target {
                self.cache_todo.band(band).push(image)
            } else {
                self.cache_todo.band(band)
            })
            &&& post.pass == Pass::Scan { band, remaining }
            &&& r == Step::Again
        }
    }

    /// What one step of the pass does, by how far the pass has come.
    pub open spec fn load_step(self, post: Self, r: Step) -> bool {
        &&& self.same_jobs(post)
        &&& post.target_size == self.target_size
        &&& match self.pass {
            Pass::Idle => {
                &&& self.same_data(post)
                &&& post.cache_todo == self.cache_todo
                &&& post.thumb_todo == self.thumb_todo
                &&& post.pass == Pass::Idle
                &&& r == Step::Done
            },
            Pass::Lod { image, .. } => {
                &&& self.same_data(post)
                &&& post.cache_todo == self.cache_todo
                &&& post.thumb_todo == self.thumb_todo
                &&& post.pass == self.pass
                &&& r == (Step::Lod { image })
            },
            Pass::Scan { band, remaining } => if remaining == 0 {
                &&& self.same_data(post)
                &&& post.cache_todo == self.cache_todo
                &&& post.thumb_todo == self.thumb_todo
                &&& match band {
                    Band::Visible => {
                        &&& post.pass == Pass::Scan {
                            band: Band::Hidden,
                            remaining: self.cache_todo.hidden@.len() as usize,
                        }
                        &&& r == Step::Again
                    },
                    Band::Hidden => post.pass == Pass::Idle && r == Step::Done,
                }
            } else {
                self.taken(post, r, band, remaining)
            },
            Pass::Load { band, remaining, image, level, target, cursor } => self.loaded(
                post,
                r,
                band,
                remaining,
                image,
                level,
                target,
                cursor,
            ),
        }
    }

    /// Where `self` was loading a level and `post` is on to the next image,
    /// the image has the level in `post` that one pass was to bring.
    pub open spec fn visit_advances(self, post: Self) -> bool {
        match self.pass {
            Pass::Load { image, target, .. } => post.pass is Scan ==> post.images@[image as int].size
                == advance(self.images@[image as int].size, target),
            _ => true,
        }
    }

    /// A level that has been loaded to its end is the level that one pass
    /// was to bring: one step from the level before, towards the target.
    pub proof fn lemma_visit_advances(self, post: Self, r: Step)
        requires
            self.wf(),
            self.load_step(post, r),
        ensures
            self.visit_advances(post),
    {
    }

    /// The entries that the pass has yet to take while it loads a level are
    /// the same in `post`.
    pub open spec fn window_kept(self, post: Self) -> bool {
        self.pass matches Pass::Load { band, remaining, .. } ==> post.cache_todo.band(band).take(
            remaining as int,
        ) == self.cache_todo.band(band).take(remaining as int)
    }

    /// A step that goes on with a level does not change which entries the
    /// pass has yet to take: the image is queued behind them, if it is queued
    /// again, so the pass takes no image twice that was queued once.
    pub proof fn lemma_window_kept(self, post: Self, r: Step)
        requires
            self.wf(),
            self.load_step(post, r),
        ensures
            self.window_kept(post),
    {
        match self.pass {
            Pass::Load { band, remaining, .. } => {
                assert(post.cache_todo.band(band).take(remaining as int)
                    =~= self.cache_todo.band(band).take(remaining as int));
            },
            _ => {},
        }
    }

    /// Starts a pass that aims at the resolution `target_size`. A pass that
    /// was under way ends, as if its deadline had passed.
    pub fn start_pass(&mut self, target_size: u32)
        requires
            old(self).wf(),
        ensures
            final(self).wf(),
            old(self).same_jobs(*final(self)),
            old(self).same_data(*final(self)),
            final(self).thumb_todo == old(self).thumb_todo,
            final(self).cache_todo.visible@ == old(self).suspended(Band::Visible),
            final(self).cache_todo.hidden@ == old(self).suspended(Band::Hidden),
            final(self).target_size == target_size,
            final(self).pass == (Pass::Scan {
                band: Band::Visible,
                remaining: old(self).suspended(Band::Visible).len() as usize,
            }),
    {
        self.suspend();
        self.target_size = target_size;
        let remaining: usize = self.cache_todo.len(Band::Visible);
        self.pass = Pass::Scan { band: Band::Visible, remaining };
    }

    /// Ends the pass because the deadline has passed. The image that the
    /// pass had in hand goes back to the front of its queue; the tiles that
    /// were loaded for it stay, and its level is as it was.
    pub fn suspend(&mut self)
        requires
            old(self).wf(),
        ensures
            final(self).wf(),
            old(self).same_jobs(*final(self)),
            old(self).same_data(*final(self)),
            final(self).thumb_todo == old(self).thumb_todo,
            final(self).target_size == old(self).target_size,
            final(self).cache_todo.visible@ == old(self).suspended(Band::Visible),
            final(self).cache_todo.hidden@ == old(self).suspended(Band::Hidden),
            final(self).pass == Pass::Idle,
    {
        match self.pass {
            Pass::Lod { band, image, .. } => {
                self.cache_todo.push_front(band, image);
            },
            Pass::Load { band, image, .. } => {
                self.cache_todo.push_front(band, image);
            },
            _ => {},
        }
        self.pass = Pass::Idle;
    }

    /// Holds `image`, taken from `band`, against the resolution `wanted`.
    fn select(&mut self, band: Band, remaining: usize, image: usize, wanted: u32)
        requires
            forall|i: int|
                0 <= i < old(self).images@.len() ==> (#[trigger] old(self).images@[i]).wf(),
            old(self).has_level(image as int, 0),
        ensures
            old(self).same_jobs(*final(self)),
            old(self).same_data(*final(self)),
            final(self).cache_todo == old(self).cache_todo,
            final(self).thumb_todo == old(self).thumb_todo,
            final(self).target_size == old(self).target_size,
            final(self).pass == old(self).chosen(band, remaining, image, wanted),
            final(self).pass_wf_but_queue(),
    {
        let record = &self.images[image];
        assert(record.wf());
        let target: usize = match &record.metadata {
            MetadataState::Present(m) => m.nearest(wanted),
            _ => unreached(),
        };
        let level: usize = match record.size {
            None => 0,
            Some(current) => {
                if target > current {
                    current + 1
                } else if target < current {
                    current - 1
                } else {
                    self.pass = Pass::Scan { band, remaining };
                    return ;
                }
            },
        };
        self.pass = Pass::Load { band, remaining, image, level, target, cursor: 0 };
    }

    /// Reports by how many levels of detail the image that the pass waits
    /// for is to be degraded. Where the pass waits for no such report,
    /// nothing changes.
    pub fn lod(&mut self, shift: u32)
        requires
            old(self).wf(),
        ensures
            final(self).wf(),
            old(self).same_jobs(*final(self)),
            old(self).same_data(*final(self)),
            final(self).cache_todo == old(self).cache_todo,
            final(self).thumb_todo == old(self).thumb_todo,
            final(self).target_size == old(self).target_size,
            final(self).pass == old(self).after_lod(shift),
    {
        match self.pass {
            Pass::Lod { band, remaining, image } => {
                let wanted: u32 = shift_target(self.target_size, shift);
                self.select(band, remaining, image, wanted);
            },
            _ => {},
        }
    }

    /// Takes one step of the pass and says what the caller does next.
    ///
    /// On `Step::Fetch` the caller fetches the tile and calls `install`, or
    /// calls `suspend` where the deadline has passed, or `abort` where the
    /// store does not have the tile. On `Step::Lod` it calls `lod`.
    pub fn load_cache(&mut self) -> (r: Step)
        requires
            old(self).wf(),
        ensures
            final(self).wf(),
            old(self).load_step(*final(self), r),
            old(self).level_change_exclusive(*final(self)),
    {
        match self.pass {
            Pass::Idle => Step::Done,
            Pass::Lod { image, .. } => Step::Lod { image },
            Pass::Scan { band, remaining } => {
                if remaining == 0 {
                    match band {
                        Band::Visible => {
                            let n: usize = self.cache_todo.len(Band::Hidden);
                            self.pass = Pass::Scan { band: Band::Hidden, remaining: n };
                            Step::Again
                        },
                        Band::Hidden => {
                            self.pass = Pass::Idle;
                            Step::Done
                        },
                    }
                } else {
                    self.take(band, remaining)
                }
            },
            Pass::Load { band, remaining, image, level, target, cursor } => {
                self.load(band, remaining, image, level, target, cursor)
            },
        }
    }

    /// Takes the image at the front of `band`.
    fn take(&mut self, band: Band, remaining: usize) -> (r: Step)
        requires
            old(self).wf(),
            old(self).pass == (Pass::Scan { band, remaining }),
            remaining > 0,
        ensures
            final(self).wf(),
            old(self).same_jobs(*final(self)),
            final(self).target_size == old(self).target_size,
            old(self).taken(*final(self), r, band, remaining),
    {
        let rest: usize = remaining - 1;
        let i: usize = match self.cache_todo.pop_front(band) {
            Some(i) => i,
            None => unreached(),
        };
        assert(i == old(self).cache_todo.band(band)[0]);
        assert(i < self.images@.len());
        assert forall|k: int| 0 <= k < self.cache_todo.band(band).len() implies 0
            <= #[trigger] self.cache_todo.band(band)[k] < self.images@.len() by {
            assert(self.cache_todo.band(band)[k] == old(self).cache_todo.band(band)[k + 1]);
        }
        match &self.images[i].metadata {
            MetadataState::Missing => {
                self.thumb_todo.push_back(band, i);
                self.pass = Pass::Scan { band, remaining: rest };
                Step::Again
            },
            MetadataState::Errored => {
                self.pass = Pass::Scan { band, remaining: rest };
                Step::Again
            },
            MetadataState::Present(_) => {
                match band {
                    Band::Visible => {
                        let wanted: u32 = self.target_size;
                        self.select(band, rest, i, wanted);
                        Step::Again
                    },
                    Band::Hidden => {
                        self.pass = Pass::Lod { band, remaining: rest, image: i };
                        Step::Lod { image: i }
                    },
                }
            },
        }
    }

    /// Goes on with the loading of `level` for `image`.
    fn load(
        &mut self,
        band: Band,
        remaining: usize,
        image: usize,
        level: usize,
        target: usize,
        cursor: usize,
    ) -> (r: Step)
        requires
            old(self).wf(),
            old(self).pass == (Pass::Load { band, remaining, image, level, target, cursor }),
        ensures
            final(self).wf(),
            old(self).same_jobs(*final(self)),
            final(self).target_size == old(self).target_size,
            old(self).loaded(*final(self), r, band, remaining, image, level, target, cursor),
            old(self).level_change_exclusive(*final(self)),
    {
        let m: &Metadata = match &self.images[image].metadata {
            MetadataState::Present(m) => m,
            _ => unreached(),
        };
        let keys = &m.thumbs[level].tile_refs;
        let count: usize = keys.len();
        let mut at: usize = cursor;
        while at < count && self.tiles.contains(keys[at])
            invariant
                count == keys@.len(),
                cursor <= at <= count,
                first_absent(keys@, self.tiles@, at as int) == first_absent(
                    keys@,
                    self.tiles@,
                    cursor as int,
                ),
                forall|k: int| 0 <= k < at ==> self.tiles@.contains_key((#[trigger] keys@[k]).0),
            decreases count - at,
        {
            at += 1;
        }
        if at < count {
            let key = keys[at];
            self.pass = Pass::Load { band, remaining, image, level, target, cursor: at };
            return Step::Fetch { key };
        }
        proof {
            assert forall|k: u64| #[trigger]
                level_keys(*m, level as int).contains(k) implies self.tiles@.remove_keys(
                other_keys(*m, level as int),
            ).contains_key(k) by {
                lemma_level_keys_apart(*m, level as int, k);
            }
        }
        self.tiles.evict_others(m, level);
        self.images[image].size = Some(level);
        if level != target {
            self.cache_todo.push_back(band, image);
        }
        self.pass = Pass::Scan { band, remaining };
        Step::Again
    }

    /// Puts the tile that was fetched into the cache, under the key that the
    /// last `Step::Fetch` named. Where the pass waits for no tile, nothing
    /// changes and the tile is dropped.
    pub fn install(&mut self, tile: T)
        requires
            old(self).wf(),
        ensures
            final(self).wf(),
            old(self).same_jobs(*final(self)),
            final(self).images == old(self).images,
            final(self).cache_todo == old(self).cache_todo,
            final(self).thumb_todo == old(self).thumb_todo,
            final(self).target_size == old(self).target_size,
            old(self).installed(*final(self), tile),
    {
        match self.pass {
            Pass::Load { band, remaining, image, level, target, cursor } => {
                let key: TileRef = match &self.images[image].metadata {
                    MetadataState::Present(m) => {
                        let keys = &m.thumbs[level].tile_refs;
                        if cursor >= keys.len() {
                            return ;
                        }
                        keys[cursor]
                    },
                    _ => unreached(),
                };
                self.tiles.insert(key, tile);
                self.pass = Pass::Load { band, remaining, image, level, target, cursor: cursor + 1 };
            },
            _ => {},
        }
    }

    /// Gives up the level that is being loaded because the store does not
    /// have the tile that was asked for, and returns that tile's key. The
    /// image is not queued again and keeps its level; the pass goes on with
    /// the next image. Where the pass waits for no tile, nothing changes.
    pub fn abort(&mut self) -> (r: Option<TileRef>)
        requires
            old(self).wf(),
        ensures
            final(self).wf(),
            old(self).same_jobs(*final(self)),
            old(self).same_data(*final(self)),
            final(self).cache_todo == old(self).cache_todo,
            final(self).thumb_todo == old(self).thumb_todo,
            final(self).target_size == old(self).target_size,
            old(self).aborted(*final(self), r),
    {
        match self.pass {
            Pass::Load { band, remaining, image, level, cursor, .. } => {
                let key: TileRef = match &self.images[image].metadata {
                    MetadataState::Present(m) => {
                        let keys = &m.thumbs[level].tile_refs;
                        if cursor >= keys.len() {
                            return None;
                        }
                        keys[cursor]
                    },
                    _ => unreached(),
                };
                self.pass = Pass::Scan { band, remaining };
                Some(key)
            },
            _ => None,
        }
    }
}

} // verus!
