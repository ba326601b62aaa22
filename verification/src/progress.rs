//! How much of a loading pass is left, image by image.
//!
//! Every image has a number of visits that the pass still owes it: one for
//! each time that it stands among the entries the pass has yet to take, and
//! one while the pass has it in hand. No step of the pass raises that
//! number, and a step that changes the image's level lowers it. So a pass
//! changes the level of an image that was queued once by one step at most.

use crate::key::TileRef;
use crate::queue::Band;
use crate::sched::{Pass, Scheduler, Step};
use crate::image::Image;
use crate::visible::{band_of, before, is_ranking, ranked, Place};
use vstd::prelude::*;
use vstd::std_specs::vecdeque::axiom_spec_len;

verus! {

/// The number of times that `x` occurs in `s`.
pub open spec fn count(s: Seq<usize>, x: usize) -> nat
    decreases s.len(),
{
    if s.len() == 0 {
        0
    } else {
        count(s.drop_last(), x) + (if s.last() == x {
            1nat
        } else {
            0nat
        })
    }
}

/// 1 where `a` is `b`, else 0.
pub open spec fn one_if(a: usize, b: usize) -> nat {
    if a == b {
        1
    } else {
        0
    }
}

/// Counting in a queue is counting its front entry and the rest.
pub proof fn lemma_count_front(s: Seq<usize>, x: usize)
    requires
        s.len() > 0,
    ensures
        count(s, x) == one_if(s[0], x) + count(s.skip(1), x),
    decreases s.len(),
{
    let front = s.drop_last();
    let back = s.skip(1);
    if s.len() == 1 {
        assert(count(front, x) == 0);
        assert(count(back, x) == 0);
        assert(s.last() == s[0]);
    } else {
        lemma_count_front(front, x);
        assert(front.skip(1) =~= back.drop_last());
        assert(back.last() == s.last());
        assert(front[0] == s[0]);
        assert(count(back, x) == count(back.drop_last(), x) + one_if(back.last(), x));
        assert(count(s, x) == count(front, x) + one_if(s.last(), x));
    }
}

/// An entry put at the back of a queue counts once more.
pub proof fn lemma_count_push(s: Seq<usize>, y: usize, x: usize)
    ensures
        count(s.push(y), x) == count(s, x) + one_if(y, x),
{
    assert(s.push(y).drop_last() =~= s);
}

/// Counting in two queues, one behind the other, is counting in each.
pub proof fn lemma_count_concat(a: Seq<usize>, b: Seq<usize>, x: usize)
    ensures
        count(a + b, x) == count(a, x) + count(b, x),
    decreases b.len(),
{
    if b.len() == 0 {
        assert(a + b =~= a);
    } else {
        lemma_count_concat(a, b.drop_last(), x);
        assert((a + b).drop_last() =~= a + b.drop_last());
        assert((a + b).last() == b.last());
    }
}

/// An image that does not stand in a queue counts zero times.
pub proof fn lemma_count_zero(s: Seq<usize>, x: usize)
    requires
        forall|k: int| 0 <= k < s.len() ==> #[trigger] s[k] != x,
    ensures
        count(s, x) == 0,
    decreases s.len(),
{
    if s.len() > 0 {
        assert(s[s.len() - 1] != x);
        assert forall|k: int| 0 <= k < s.drop_last().len() implies #[trigger] s.drop_last()[k]
            != x by {
            assert(s.drop_last()[k] == s[k]);
        }
        lemma_count_zero(s.drop_last(), x);
    }
}

/// The queues that a ranking has built hold no image twice between them:
/// a pass that starts on them owes every image one visit at most, and so
/// changes the level of every image by one step at most.
pub proof fn lemma_rankings_once(
    visible: Seq<usize>,
    hidden: Seq<usize>,
    images: Seq<Image>,
    places: Seq<Option<Place>>,
    upto: int,
    x: usize,
)
    requires
        is_ranking(visible, images, places, Band::Visible, upto),
        is_ranking(hidden, images, places, Band::Hidden, upto),
    ensures
        count(visible + hidden, x) <= 1,
{
    lemma_count_concat(visible, hidden, x);
    lemma_ranked_once(visible, places, x);
    lemma_ranked_once(hidden, places, x);
    if band_of(places, x as int) == Band::Visible {
        lemma_count_zero(hidden, x);
    } else {
        lemma_count_zero(visible, x);
    }
}

/// A queue whose every entry is served before those behind it holds no
/// image twice.
pub proof fn lemma_ranked_once(s: Seq<usize>, places: Seq<Option<Place>>, x: usize)
    requires
        ranked(s, places),
    ensures
        count(s, x) <= 1,
    decreases s.len(),
{
    if s.len() > 0 {
        let rest = s.drop_last();
        assert(ranked(rest, places)) by {
            assert forall|j: int, k: int| 0 <= j < k < rest.len() implies before(
                places,
                #[trigger] rest[j] as int,
                #[trigger] rest[k] as int,
            ) by {
                assert(rest[j] == s[j] && rest[k] == s[k]);
            }
        }
        lemma_ranked_once(rest, places, x);
        if s.last() == x {
            lemma_absent(rest, x, s, places);
        }
    }
}

/// The image that is served last in a ranked queue does not stand before.
proof fn lemma_absent(rest: Seq<usize>, x: usize, s: Seq<usize>, places: Seq<Option<Place>>)
    requires
        s.len() > 0,
        rest == s.drop_last(),
        s.last() == x,
        ranked(s, places),
    ensures
        count(rest, x) == 0,
    decreases rest.len(),
{
    if rest.len() > 0 {
        let shorter = s.drop_last();
        assert(before(places, s[rest.len() - 1] as int, s[s.len() - 1] as int));
        assert(rest.last() == s[rest.len() - 1]);
        let t = rest.drop_last().push(x);
        assert(ranked(t, places)) by {
            assert forall|j: int, k: int| 0 <= j < k < t.len() implies before(
                places,
                #[trigger] t[j] as int,
                #[trigger] t[k] as int,
            ) by {
                assert(t[j] == s[j]);
                if k == t.len() - 1 {
                    assert(t[k] == s[s.len() - 1]);
                    assert(before(places, s[j] as int, s[s.len() - 1] as int));
                } else {
                    assert(t[k] == s[k]);
                }
            }
        }
        assert(t.drop_last() =~= rest.drop_last());
        lemma_absent(rest.drop_last(), x, t, places);
    }
}

impl<T> Scheduler<T> {
    /// The image that the pass has in hand, if it has one.
    pub open spec fn in_hand(self) -> Option<usize> {
        match self.pass {
            Pass::Lod { image, .. } => Some(image),
            Pass::Load { image, .. } => Some(image),
            _ => None,
        }
    }

    /// The entries that the pass has yet to take: those of the band that it
    /// is in, and, while it is in the visible band, those of the hidden one.
    pub open spec fn ahead(self) -> Seq<usize> {
        match self.pass {
            Pass::Idle => Seq::empty(),
            Pass::Scan { band, remaining } => self.ahead_in(band, remaining),
            Pass::Lod { band, remaining, .. } => self.ahead_in(band, remaining),
            Pass::Load { band, remaining, .. } => self.ahead_in(band, remaining),
        }
    }

    /// The first `remaining` entries of `band`, and behind them the hidden
    /// band where `band` is the visible one.
    pub open spec fn ahead_in(self, band: Band, remaining: usize) -> Seq<usize> {
        match band {
            Band::Visible => self.cache_todo.visible@.take(remaining as int)
                + self.cache_todo.hidden@,
            Band::Hidden => self.cache_todo.hidden@.take(remaining as int),
        }
    }

    /// The number of visits that the pass still owes image `i`.
    pub open spec fn pending(self, i: usize) -> nat {
        count(self.ahead(), i) + (match self.in_hand() {
            Some(image) => one_if(image, i),
            None => 0,
        })
    }

    /// A pass that has just been started owes every image as many visits as
    /// the image is queued.
    pub proof fn lemma_pending_at_start(self, remaining: usize, i: usize)
        requires
            self.pass == (Pass::Scan { band: Band::Visible, remaining }),
            remaining == self.cache_todo.visible@.len(),
        ensures
            self.pending(i) == count(self.cache_todo.visible@ + self.cache_todo.hidden@, i),
    {
        assert(self.cache_todo.visible@.take(self.cache_todo.visible@.len() as int)
            =~= self.cache_todo.visible@);
    }

    /// A step of the pass owes no image more visits than were owed before,
    /// and where it has changed the level of an image, it owes that image
    /// one visit fewer.
    pub proof fn lemma_step_spends(self, post: Self, r: Step, i: usize)
        requires
            self.wf(),
            self.load_step(post, r),
            i < self.images@.len(),
        ensures
            post.pending(i) <= self.pending(i),
            post.images@[i as int].size != self.images@[i as int].size ==> post.pending(i) + 1
                == self.pending(i),
    {
        match self.pass {
            Pass::Idle => {},
            Pass::Lod { .. } => {
                assert(post.ahead() =~= self.ahead());
            },
            Pass::Scan { band, remaining } => {
                if remaining == 0 {
                    match band {
                        Band::Visible => {
                            axiom_spec_len(&self.cache_todo.hidden);
                            assert(post.ahead() =~= self.ahead());
                        },
                        Band::Hidden => {},
                    }
                } else {
                    let queue = self.cache_todo.band(band);
                    let rest = (remaining - 1) as usize;
                    assert(post.ahead_in(band, rest) =~= self.ahead_in(band, remaining).skip(1));
                    lemma_count_front(self.ahead_in(band, remaining), i);
                    assert(self.ahead_in(band, remaining)[0] == queue[0]);
                }
            },
            Pass::Load { band, remaining, image, level, target, cursor } => {
                if post.pass is Scan {
                    assert(post.ahead_in(band, remaining) =~= self.ahead_in(band, remaining));
                } else {
                    assert(post.ahead() =~= self.ahead());
                }
            },
        }
    }

    /// Reporting a shift owes no image more visits, and changes no level.
    pub proof fn lemma_lod_spends(self, post: Self, shift: u32, i: usize)
        requires
            self.wf(),
            post.cache_todo == self.cache_todo,
            post.images == self.images,
            post.pass == self.after_lod(shift),
        ensures
            post.pending(i) <= self.pending(i),
    {
        assert(post.ahead() =~= self.ahead());
    }

    /// Handing over a tile owes every image the visits that were owed
    /// before, and changes no level.
    pub proof fn lemma_install_spends(self, post: Self, tile: T, i: usize)
        requires
            self.wf(),
            post.cache_todo == self.cache_todo,
            post.images == self.images,
            self.installed(post, tile),
        ensures
            post.pending(i) == self.pending(i),
    {
        assert(post.ahead() =~= self.ahead());
    }

    /// Giving up a level owes no image more visits, and changes no level.
    pub proof fn lemma_abort_spends(self, post: Self, r: Option<TileRef>, i: usize)
        requires
            self.wf(),
            post.cache_todo == self.cache_todo,
            post.images == self.images,
            self.aborted(post, r),
        ensures
            post.pending(i) <= self.pending(i),
    {
        assert(post.ahead() =~= self.ahead());
    }
}

} // verus!
