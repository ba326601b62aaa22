//! The thumbnail pipeline's admission: which pyramids are built next, and
//! what becomes of an image when its pyramid is built or has failed.
//!
//! The jobs themselves run elsewhere. The scheduler only keeps count of
//! them: an image has one job at most, and no job is admitted while more
//! jobs are running than there are worker threads.

use crate::error::E;
use crate::image::Image;
use crate::pyramid::{Metadata, MetadataState};
use crate::queue::Band;
use crate::sched::Scheduler;
use vstd::prelude::*;

verus! {

/// A pyramid that is to be built.
#[derive(Debug, PartialEq, Eq, Structural, Clone, Copy)]
pub struct ThumbJob {
    /// The image whose pyramid is to be built.
    pub image: usize,
    /// The tile index that is reserved for the image.
    pub tile_id_index: u64,
}

/// The jobs that are running once a job has been asked for image `i`, and
/// whether one was started: only for an image without a pyramid that has no
/// job yet.
pub open spec fn submit(jobs: Set<usize>, missing: bool, i: usize) -> (Set<usize>, bool) {
    if missing && !jobs.contains(i) {
        (jobs.insert(i), true)
    } else {
        (jobs, false)
    }
}

/// A job asked for twice is started once: while the first is running the
/// second request starts nothing and changes nothing, and the two requests
/// together add one job at most.
pub proof fn lemma_submit_twice(jobs: Set<usize>, missing: bool, i: usize)
    requires
        jobs.finite(),
    ensures
        submit(submit(jobs, missing, i).0, missing, i) == (submit(jobs, missing, i).0, false),
        submit(jobs, missing, i).0.len() <= jobs.len() + 1,
        submit(jobs, missing, i).1 ==> submit(jobs, missing, i).0.len() == jobs.len() + 1,
        jobs.contains(i) ==> submit(jobs, missing, i) == (jobs, false),
{
}

/// The position of the first entry of `queue`, from `from` on, for which a
/// job would be started, or the queue's length where there is none.
pub open spec fn first_wanted(
    queue: Seq<usize>,
    images: Seq<Image>,
    jobs: Set<usize>,
    from: int,
) -> int
    decreases queue.len() - from,
{
    if from >= queue.len() {
        queue.len() as int
    } else if images[queue[from] as int].metadata is Missing && !jobs.contains(queue[from]) {
        from
    } else {
        first_wanted(queue, images, jobs, from + 1)
    }
}

impl<T> Scheduler<T> {
    /// Whether image `i` exists and has no pyramid yet.
    pub open spec fn missing(self, i: usize) -> bool {
        i < self.images@.len() && self.images@[i as int].metadata is Missing
    }

    /// Only the running jobs differ between `self` and `post`.
    pub open spec fn same_but_jobs(self, post: Self) -> bool {
        &&& self.same_data(post)
        &&& post.cache_todo == self.cache_todo
        &&& post.thumb_todo == self.thumb_todo
        &&& post.thumb_threads == self.thumb_threads
        &&& post.base_id == self.base_id
        &&& post.target_size == self.target_size
        &&& post.pass == self.pass
    }

    /// What admitting the next job from `band` does, where no more jobs are
    /// running than there are threads: the first entry that is wanted gets
    /// its job, and it and the entries before it leave the queue.
    pub open spec fn admitted_from(self, post: Self, r: Option<ThumbJob>, band: Band) -> bool {
        let queue = self.thumb_todo.band(band);
        let at = first_wanted(queue, self.images@, self.thumb_jobs@, 0);
        if at < queue.len() {
            &&& post.thumb_todo.band(band) == queue.skip(at + 1)
            &&& post.thumb_jobs@ == self.thumb_jobs@.insert(queue[at])
            &&& r == Some(
                ThumbJob { image: queue[at], tile_id_index: (self.base_id + queue[at]) as u64 },
            )
        } else {
            &&& post.thumb_todo.band(band).len() == 0
            &&& post.thumb_jobs@ == self.thumb_jobs@
            &&& r is None
        }
    }

    /// What admitting the next job does: none while more jobs are running
    /// than there are threads; else the first that is wanted, from the
    /// visible band before the hidden one.
    pub open spec fn admitted(self, post: Self, r: Option<ThumbJob>) -> bool {
        if self.thumb_jobs@.len() > self.thumb_threads {
            &&& post.thumb_todo == self.thumb_todo
            &&& post.thumb_jobs@ == self.thumb_jobs@
            &&& r is None
        } else if first_wanted(self.thumb_todo.visible@, self.images@, self.thumb_jobs@, 0)
            < self.thumb_todo.visible@.len() {
            &&& post.thumb_todo.hidden@ == self.thumb_todo.hidden@
            &&& self.admitted_from(post, r, Band::Visible)
        } else {
            &&& post.thumb_todo.visible@.len() == 0
            &&& self.admitted_from(post, r, Band::Hidden)
        }
    }

    /// Whether the running jobs of `post` are within the admission cap, or
    /// no more than those of `self`.
    pub open spec fn within_cap(self, post: Self) -> bool {
        ||| post.thumb_jobs@.len() <= self.thumb_jobs@.len()
        ||| post.thumb_jobs@.len() <= self.thumb_threads + 1
    }

    /// The loading pass, the images, the tiles and the settings are the same
    /// in `self` and `post`.
    pub open spec fn same_but_thumbs(self, post: Self) -> bool {
        &&& self.same_data(post)
        &&& post.cache_todo == self.cache_todo
        &&& post.thumb_threads == self.thumb_threads
        &&& post.base_id == self.base_id
        &&& post.target_size == self.target_size
        &&& post.pass == self.pass
    }

    /// What the result of a job does: where image `i` has a job running, the
    /// job is over, and the image either has its pyramid and stands at the
    /// front of `band`'s loading queue, or is marked as failed for good.
    /// Where it has none, nothing changes.
    pub open spec fn received(
        self,
        post: Self,
        i: usize,
        result: Result<Metadata, E>,
        band: Band,
    ) -> bool {
        if self.thumb_jobs@.contains(i) {
            &&& post.thumb_jobs@ == self.thumb_jobs@.remove(i)
            &&& post.images@.len() == self.images@.len()
            &&& forall|j: int|
                0 <= j < self.images@.len() && j != i ==> #[trigger] post.images@[j]
                    == self.images@[j]
            &&& post.images@[i as int].file == self.images@[i as int].file
            &&& post.images@[i as int].size == self.images@[i as int].size
            &&& post.cache_todo.other(band) == self.cache_todo.other(band)
            &&& match result {
                Ok(m) => {
                    &&& post.images@[i as int].metadata == MetadataState::Present(m)
                    &&& post.cache_todo.band(band) == seq![i] + self.cache_todo.band(band)
                },
                Err(_) => {
                    &&& post.images@[i as int].metadata == MetadataState::Errored
                    &&& post.cache_todo.band(band) == self.cache_todo.band(band)
                },
            }
        } else {
            &&& post.thumb_jobs@ == self.thumb_jobs@
            &&& post.images == self.images
            &&& post.cache_todo == self.cache_todo
        }
    }

    /// Starts a job for image `i` unless it has a pyramid, has failed, or
    /// has a job already. Returns the tile index reserved for the image
    /// where a job is started.
    pub fn make_thumb(&mut self, i: usize) -> (r: Option<u64>)
        requires
            old(self).wf(),
        ensures
            final(self).wf(),
            old(self).same_but_jobs(*final(self)),
            (final(self).thumb_jobs@, r is Some) == submit(
                old(self).thumb_jobs@,
                old(self).missing(i),
                i,
            ),
            r matches Some(id) ==> id == old(self).base_id + i,
    {
        if i >= self.images.len() {
            return None;
        }
        if !self.images[i].is_missing() {
            return None;
        }
        if self.thumb_jobs.contains(i) {
            return None;
        }
        let tile_id_index: u64 = self.base_id + i as u64;
        self.thumb_jobs.insert(i);
        Some(tile_id_index)
    }

    /// Admits the next job from `band`.
    fn admit_from(&mut self, band: Band) -> (r: Option<ThumbJob>)
        requires
            old(self).wf(),
        ensures
            final(self).wf(),
            old(self).same_but_thumbs(*final(self)),
            final(self).thumb_todo.other(band) == old(self).thumb_todo.other(band),
            old(self).admitted_from(*final(self), r, band),
    {
        let ghost queue = self.thumb_todo.band(band);
        let ghost mut at: int = 0;
        loop
            invariant
                self.wf(),
                old(self).same_but_thumbs(*self),
                self.thumb_jobs@ == old(self).thumb_jobs@,
                self.thumb_todo.other(band) == old(self).thumb_todo.other(band),
                queue == old(self).thumb_todo.band(band),
                0 <= at <= queue.len(),
                self.thumb_todo.band(band) == queue.skip(at),
                first_wanted(queue, self.images@, self.thumb_jobs@, at) == first_wanted(
                    queue,
                    self.images@,
                    self.thumb_jobs@,
                    0,
                ),
            decreases queue.len() - at,
        {
            let i: usize = match self.thumb_todo.pop_front(band) {
                Some(i) => i,
                None => {
                    return None;
                },
            };
            assert(i == queue[at]);
            proof {
                assert(queue.skip(at).skip(1) =~= queue.skip(at + 1));
            }
            match self.make_thumb(i) {
                Some(tile_id_index) => {
                    return Some(ThumbJob { image: i, tile_id_index });
                },
                None => {},
            }
            proof {
                at = at + 1;
            }
        }
    }

    /// Admits the next thumbnail job, if one is to be started now.
    ///
    /// The caller starts the job that is returned and asks again, until
    /// `None` comes back.
    pub fn make_thumbs(&mut self) -> (r: Option<ThumbJob>)
        requires
            old(self).wf(),
        ensures
            final(self).wf(),
            old(self).same_but_thumbs(*final(self)),
            old(self).admitted(*final(self), r),
            old(self).within_cap(*final(self)),
    {
        if self.thumb_jobs.len() > self.thumb_threads {
            return None;
        }
        match self.admit_from(Band::Visible) {
            Some(job) => Some(job),
            None => self.admit_from(Band::Hidden),
        }
    }

    /// Takes the result of the job of image `i`: its pyramid, or why the job
    /// failed. `band` is the band that the image is in now.
    pub fn recv_thumb(&mut self, i: usize, result: Result<Metadata, E>, band: Band)
        requires
            old(self).wf(),
            result matches Ok(m) ==> m.wf(),
        ensures
            final(self).wf(),
            final(self).tiles == old(self).tiles,
            final(self).thumb_todo == old(self).thumb_todo,
            final(self).thumb_threads == old(self).thumb_threads,
            final(self).base_id == old(self).base_id,
            final(self).target_size == old(self).target_size,
            final(self).pass == old(self).pass,
            old(self).received(*final(self), i, result, band),
    {
        if !self.thumb_jobs.remove(i) {
            assert(self.thumb_jobs@ =~= old(self).thumb_jobs@);
            return ;
        }
        match result {
            Ok(m) => {
                self.images[i].metadata = MetadataState::Present(m);
                self.cache_todo.push_front(band, i);
            },
            Err(_) => {
                self.images[i].metadata = MetadataState::Errored;
            },
        }
    }
}

} // verus!
