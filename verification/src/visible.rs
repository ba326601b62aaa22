//! The priority scheduler: rebuilding the work queues when the point that
//! the images are ranked around has moved.

use crate::image::Image;
use crate::queue::Band;
use crate::sched::{Pass, Scheduler};
use std::collections::VecDeque;
use vstd::prelude::*;

verus! {

/// Where an image stands relative to the viewport and the ranking point.
#[derive(Debug, PartialEq, Eq, Structural, Clone, Copy)]
pub struct Place {
    /// The squared distance of the image from the ranking point.
    pub distance: isize,
    /// Whether the image is in the viewport.
    pub visible: bool,
}

/// Whether image `i` is queued when the queues are rebuilt: it has a place,
/// and building its pyramid has not failed.
pub open spec fn eligible(images: Seq<Image>, places: Seq<Option<Place>>, i: int) -> bool {
    &&& 0 <= i < images.len()
    &&& i < places.len()
    &&& places[i] is Some
    &&& !(images[i].metadata is Errored)
}

/// The distance by which image `i` is ranked.
pub open spec fn distance(places: Seq<Option<Place>>, i: int) -> int {
    match places[i] {
        Some(p) => p.distance as int,
        None => 0,
    }
}

/// The band of image `i`.
pub open spec fn band_of(places: Seq<Option<Place>>, i: int) -> Band {
    match places[i] {
        Some(p) => if p.visible {
            Band::Visible
        } else {
            Band::Hidden
        },
        None => Band::Hidden,
    }
}

/// Whether image `a` is served before image `b`: it is nearer, or as near
/// and earlier in the collection.
pub open spec fn before(places: Seq<Option<Place>>, a: int, b: int) -> bool {
    distance(places, a) < distance(places, b) || (distance(places, a) == distance(places, b) && a
        < b)
}

/// Whether every entry of `queue` is served before those behind it.
pub open spec fn ranked(queue: Seq<usize>, places: Seq<Option<Place>>) -> bool {
    forall|j: int, k: int|
        0 <= j < k < queue.len() ==> before(places, #[trigger] queue[j] as int, #[trigger] queue[k] as int)
}

/// Whether `queue` is the queue of `band` over the images below `upto`: it
/// holds the eligible images of that band, each once, the nearest first.
pub open spec fn is_ranking(
    queue: Seq<usize>,
    images: Seq<Image>,
    places: Seq<Option<Place>>,
    band: Band,
    upto: int,
) -> bool {
    &&& forall|k: int|
        0 <= k < queue.len() ==> {
            &&& (#[trigger] queue[k]) < upto
            &&& eligible(images, places, queue[k] as int)
            &&& band_of(places, queue[k] as int) == band
        }
    &&& forall|i: int|
        0 <= i < upto && eligible(images, places, i) && band_of(places, i) == band
            ==> exists|k: int| 0 <= k < queue.len() && #[trigger] queue[k] == i
    &&& ranked(queue, places)
}

/// Two queues that hold the same images, each in serving order, are equal.
pub proof fn lemma_ranked_same(a: Seq<usize>, b: Seq<usize>, places: Seq<Option<Place>>)
    requires
        ranked(a, places),
        ranked(b, places),
        forall|k: int| 0 <= k < a.len() ==> b.contains(#[trigger] a[k]),
        forall|k: int| 0 <= k < b.len() ==> a.contains(#[trigger] b[k]),
    ensures
        a == b,
    decreases a.len(),
{
    if a.len() == 0 {
        if b.len() > 0 {
            assert(a.contains(b[0]));
        }
        assert(a =~= b);
    } else if b.len() == 0 {
        assert(b.contains(a[0]));
    } else {
        let la = a.last();
        let lb = b.last();
        assert(b.contains(a[a.len() - 1]));
        assert(a.contains(b[b.len() - 1]));
        let kb = choose|k: int| 0 <= k < b.len() && b[k] == la;
        let ka = choose|k: int| 0 <= k < a.len() && a[k] == lb;
        if la != lb {
            assert(before(places, a[ka] as int, a[a.len() - 1] as int));
            assert(before(places, b[kb] as int, b[b.len() - 1] as int));
        }
        let a0 = a.drop_last();
        let b0 = b.drop_last();
        assert forall|k: int| 0 <= k < a0.len() implies b0.contains(#[trigger] a0[k]) by {
            assert(a0[k] == a[k]);
            assert(before(places, a[k] as int, a[a.len() - 1] as int));
            assert(b.contains(a[k]));
            let j = choose|j: int| 0 <= j < b.len() && b[j] == a[k];
            assert(b0[j] == a0[k]);
        }
        assert forall|k: int| 0 <= k < b0.len() implies a0.contains(#[trigger] b0[k]) by {
            assert(b0[k] == b[k]);
            assert(before(places, b[k] as int, b[b.len() - 1] as int));
            assert(a.contains(b[k]));
            let j = choose|j: int| 0 <= j < a.len() && a[j] == b[k];
            assert(a0[j] == b0[k]);
        }
        assert(ranked(a0, places)) by {
            assert forall|j: int, k: int| 0 <= j < k < a0.len() implies before(
                places,
                #[trigger] a0[j] as int,
                #[trigger] a0[k] as int,
            ) by {
                assert(a0[j] == a[j] && a0[k] == a[k]);
            }
        }
        assert(ranked(b0, places)) by {
            assert forall|j: int, k: int| 0 <= j < k < b0.len() implies before(
                places,
                #[trigger] b0[j] as int,
                #[trigger] b0[k] as int,
            ) by {
                assert(b0[j] == b[j] && b0[k] == b[k]);
            }
        }
        lemma_ranked_same(a0, b0, places);
        assert(a =~= a0.push(la));
        assert(b =~= b0.push(lb));
    }
}

/// Only one queue is the ranking of a band.
pub proof fn lemma_ranking_unique(
    a: Seq<usize>,
    b: Seq<usize>,
    images: Seq<Image>,
    places: Seq<Option<Place>>,
    band: Band,
    upto: int,
)
    requires
        is_ranking(a, images, places, band, upto),
        is_ranking(b, images, places, band, upto),
    ensures
        a == b,
{
    assert forall|k: int| 0 <= k < a.len() implies b.contains(#[trigger] a[k]) by {
        let i = a[k] as int;
        let j = choose|j: int| 0 <= j < b.len() && #[trigger] b[j] == i;
        assert(b[j] == a[k]);
    }
    assert forall|k: int| 0 <= k < b.len() implies a.contains(#[trigger] b[k]) by {
        let i = b[k] as int;
        let j = choose|j: int| 0 <= j < a.len() && #[trigger] a[j] == i;
        assert(a[j] == b[k]);
    }
    lemma_ranked_same(a, b, places);
}

/// The distance by which image `i` is ranked.
fn distance_of(places: &Vec<Option<Place>>, i: usize) -> (r: isize)
    requires
        i < places@.len(),
    ensures
        r == distance(places@, i as int),
{
    match places[i] {
        Some(p) => p.distance,
        None => 0,
    }
}

/// Puts image `i`, which comes after every image of `queue` in the
/// collection, where it is served: behind the images that are as near.
fn insert_ranked(queue: &mut VecDeque<usize>, places: &Vec<Option<Place>>, i: usize) -> (at: usize)
    requires
        i < places@.len(),
        ranked(old(queue)@, places@),
        forall|k: int| 0 <= k < old(queue)@.len() ==> (#[trigger] old(queue)@[k]) < i,
    ensures
        at <= old(queue)@.len(),
        final(queue)@ == old(queue)@.insert(at as int, i),
        ranked(final(queue)@, places@),
{
    let own: isize = distance_of(places, i);
    let mut at: usize = queue.len();
    while at > 0 && distance_of(places, queue[at - 1]) > own
        invariant
            *queue == *old(queue),
            i < places@.len(),
            own == distance(places@, i as int),
            at <= queue@.len(),
            forall|k: int| 0 <= k < queue@.len() ==> (#[trigger] queue@[k]) < i,
            forall|k: int|
                at <= k < queue@.len() ==> distance(places@, (#[trigger] queue@[k]) as int) > own,
        decreases at,
    {
        at -= 1;
    }
    queue.insert(at, i);
    proof {
        let before_it = old(queue)@;
        let after_it = queue@;
        assert forall|j: int, k: int| 0 <= j < k < after_it.len() implies before(
            places@,
            #[trigger] after_it[j] as int,
            #[trigger] after_it[k] as int,
        ) by {
            if k < at {
                assert(after_it[j] == before_it[j] && after_it[k] == before_it[k]);
            } else if k == at {
                assert(after_it[j] == before_it[j]);
                if at > 0 {
                    assert(distance(places@, before_it[at - 1] as int) <= own);
                    if j < at - 1 {
                        assert(before(places@, before_it[j] as int, before_it[at - 1] as int));
                    }
                }
            } else if j < at {
                assert(after_it[j] == before_it[j] && after_it[k] == before_it[k - 1]);
            } else if j == at {
                assert(after_it[k] == before_it[k - 1]);
            } else {
                assert(after_it[j] == before_it[j - 1] && after_it[k] == before_it[k - 1]);
            }
        }
    }
    at
}

impl<T> Scheduler<T> {
    /// Rebuilds the queues around a new ranking point. `places` says of each
    /// image where it stands, or `None` where it has no place; an image
    /// beyond the end of `places` has none.
    ///
    /// Every image that has a place and whose pyramid has not failed is
    /// queued for loading in its band, the nearest first and, of images as
    /// near, the earlier first. The queues of pyramids to build are emptied,
    /// and a pass that was under way is over.
    pub fn recalc_visible(&mut self, places: &Vec<Option<Place>>)
        requires
            old(self).wf(),
        ensures
            final(self).wf(),
            old(self).same_jobs(*final(self)),
            old(self).same_data(*final(self)),
            final(self).target_size == old(self).target_size,
            final(self).pass == Pass::Idle,
            final(self).thumb_todo.visible@.len() == 0,
            final(self).thumb_todo.hidden@.len() == 0,
            is_ranking(
                final(self).cache_todo.visible@,
                old(self).images@,
                places@,
                Band::Visible,
                old(self).images@.len() as int,
            ),
            is_ranking(
                final(self).cache_todo.hidden@,
                old(self).images@,
                places@,
                Band::Hidden,
                old(self).images@.len() as int,
            ),
    {
        self.cache_todo.clear();
        self.thumb_todo.clear();
        self.pass = Pass::Idle;
        let n: usize = self.images.len();
        let mut i: usize = 0;
        while i < n
            invariant
                n == self.images@.len(),
                i <= n,
                old(self).same_jobs(*self),
                old(self).same_data(*self),
                self.target_size == old(self).target_size,
                self.pass == Pass::Idle,
                self.thumb_todo.visible@.len() == 0,
                self.thumb_todo.hidden@.len() == 0,
                self.base_id + self.images@.len() <= u64::MAX,
                is_ranking(self.cache_todo.visible@, self.images@, places@, Band::Visible, i as int),
                is_ranking(self.cache_todo.hidden@, self.images@, places@, Band::Hidden, i as int),
            decreases n - i,
        {
            let ghost visible = self.cache_todo.visible@;
            let ghost hidden = self.cache_todo.hidden@;
            let mut queued: Option<bool> = None;
            if i < places.len() && self.images[i].loadable() {
                match places[i] {
                    Some(p) => {
                        queued = Some(p.visible);
                    },
                    None => {},
                }
            }
            match queued {
                Some(true) => {
                    let at: usize = insert_ranked(&mut self.cache_todo.visible, places, i);
                    proof {
                        lemma_ranking_grows(
                            visible,
                            self.images@,
                            places@,
                            Band::Visible,
                            i as int,
                            at as int,
                        );
                        lemma_ranking_skips(hidden, self.images@, places@, Band::Hidden, i as int);
                    }
                },
                Some(false) => {
                    let at: usize = insert_ranked(&mut self.cache_todo.hidden, places, i);
                    proof {
                        lemma_ranking_grows(
                            hidden,
                            self.images@,
                            places@,
                            Band::Hidden,
                            i as int,
                            at as int,
                        );
                        lemma_ranking_skips(visible, self.images@, places@, Band::Visible, i as int);
                    }
                },
                None => {
                    proof {
                        lemma_ranking_skips(visible, self.images@, places@, Band::Visible, i as int);
                        lemma_ranking_skips(hidden, self.images@, places@, Band::Hidden, i as int);
                    }
                },
            }
            i += 1;
        }
    }

    /// Forgets every loaded level and drops every tile, as is needed when
    /// the tiles can no longer be drawn. A pass that was under way ends as
    /// if its deadline had passed.
    pub fn reset(&mut self)
        requires
            old(self).wf(),
        ensures
            final(self).wf(),
            old(self).same_jobs(*final(self)),
            final(self).thumb_todo == old(self).thumb_todo,
            final(self).target_size == old(self).target_size,
            final(self).cache_todo.visible@ == old(self).suspended(Band::Visible),
            final(self).cache_todo.hidden@ == old(self).suspended(Band::Hidden),
            final(self).pass == Pass::Idle,
            final(self).tiles@ == Map::<u64, T>::empty(),
            final(self).images@.len() == old(self).images@.len(),
            forall|i: int|
                0 <= i < old(self).images@.len() ==> {
                    &&& (#[trigger] final(self).images@[i]).size is None
                    &&& final(self).images@[i].file == old(self).images@[i].file
                    &&& final(self).images@[i].metadata == old(self).images@[i].metadata
                },
    {
        self.suspend();
        self.tiles.clear();
        let n: usize = self.images.len();
        let mut i: usize = 0;
        while i < n
            invariant
                n == self.images@.len(),
                n == old(self).images@.len(),
                i <= n,
                old(self).same_jobs(*self),
                self.thumb_todo == old(self).thumb_todo,
                self.target_size == old(self).target_size,
                self.cache_todo.visible@ == old(self).suspended(Band::Visible),
                self.cache_todo.hidden@ == old(self).suspended(Band::Hidden),
                self.cache_todo.below(n as int),
                self.thumb_todo.below(n as int),
                self.pass == Pass::Idle,
                self.tiles@ == Map::<u64, T>::empty(),
                forall|j: int|
                    0 <= j < n ==> {
                        &&& (#[trigger] self.images@[j]).file == old(self).images@[j].file
                        &&& self.images@[j].metadata == old(self).images@[j].metadata
                        &&& self.images@[j].metadata.wf()
                        &&& j >= i ==> self.images@[j].size == old(self).images@[j].size
                        &&& j < i ==> self.images@[j].size is None
                    },
            decreases n - i,
        {
            self.images[i].size = None;
            i += 1;
        }
    }
}

/// A ranking over the images below `i` is one over those below `i + 1`
/// where image `i` is not of its band or not eligible.
proof fn lemma_ranking_skips(
    queue: Seq<usize>,
    images: Seq<Image>,
    places: Seq<Option<Place>>,
    band: Band,
    i: int,
)
    requires
        is_ranking(queue, images, places, band, i),
        !(eligible(images, places, i) && band_of(places, i) == band),
    ensures
        is_ranking(queue, images, places, band, i + 1),
{
    assert forall|e: int|
        0 <= e < i + 1 && eligible(images, places, e) && band_of(places, e)
            == band implies exists|k: int| 0 <= k < queue.len() && #[trigger] queue[k] == e by {
        assert(e < i);
    }
}

/// A ranking over the images below `i`, with image `i` put in where it is
/// served, is one over those below `i + 1`.
proof fn lemma_ranking_grows(
    queue: Seq<usize>,
    images: Seq<Image>,
    places: Seq<Option<Place>>,
    band: Band,
    i: int,
    at: int,
)
    requires
        is_ranking(queue, images, places, band, i),
        eligible(images, places, i),
        band_of(places, i) == band,
        0 <= i <= usize::MAX,
        0 <= at <= queue.len(),
        ranked(queue.insert(at, i as usize), places),
    ensures
        is_ranking(queue.insert(at, i as usize), images, places, band, i + 1),
{
    let grown = queue.insert(at, i as usize);
    assert forall|k: int| 0 <= k < grown.len() implies {
        &&& (#[trigger] grown[k]) < i + 1
        &&& eligible(images, places, grown[k] as int)
        &&& band_of(places, grown[k] as int) == band
    } by {
        if k < at {
            assert(grown[k] == queue[k]);
        } else if k > at {
            assert(grown[k] == queue[k - 1]);
        }
    }
    assert forall|e: int|
        0 <= e < i + 1 && eligible(images, places, e) && band_of(places, e)
            == band implies exists|k: int| 0 <= k < grown.len() && #[trigger] grown[k] == e by {
        if e == i {
            assert(grown[at] == e);
        } else {
            let k = choose|k: int| 0 <= k < queue.len() && #[trigger] queue[k] == e;
            if k < at {
                assert(grown[k] == e);
            } else {
                assert(grown[k + 1] == e);
            }
        }
    }
}

} // verus!
