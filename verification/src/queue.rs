//! The two work queues of image indices, one per priority band.

use std::collections::VecDeque;
use vstd::prelude::*;

verus! {

/// A priority band: images in the viewport are served before the others.
#[derive(Debug, PartialEq, Eq, Structural, Clone, Copy)]
pub enum Band {
    /// The image is in the viewport.
    Visible,
    /// The image is outside the viewport.
    Hidden,
}

impl Band {
    /// The band of an image that is or is not in the viewport.
    pub fn of(visible: bool) -> (r: Band)
        ensures
            r == (if visible {
                Band::Visible
            } else {
                Band::Hidden
            }),
    {
        if visible {
            Band::Visible
        } else {
            Band::Hidden
        }
    }

    /// The band's number: 0 for the visible band, 1 for the hidden one.
    pub fn index(self) -> (r: usize)
        ensures
            r == (if self == Band::Visible {
                0usize
            } else {
                1usize
            }),
    {
        match self {
            Band::Visible => 0,
            Band::Hidden => 1,
        }
    }
}

/// Two queues of image indices, one per band.
pub struct WorkQueues {
    /// The queue of the visible band.
    pub visible: VecDeque<usize>,
    /// The queue of the hidden band.
    pub hidden: VecDeque<usize>,
}

impl WorkQueues {
    /// The queue of `band`, front first.
    pub open spec fn band(self, band: Band) -> Seq<usize> {
        match band {
            Band::Visible => self.visible@,
            Band::Hidden => self.hidden@,
        }
    }

    /// The queue of the band that is not `band`, front first.
    pub open spec fn other(self, band: Band) -> Seq<usize> {
        match band {
            Band::Visible => self.hidden@,
            Band::Hidden => self.visible@,
        }
    }

    /// Every queued index is below `n`.
    pub open spec fn below(self, n: int) -> bool {
        &&& forall|k: int| 0 <= k < self.visible@.len() ==> 0 <= #[trigger] self.visible@[k] < n
        &&& forall|k: int| 0 <= k < self.hidden@.len() ==> 0 <= #[trigger] self.hidden@[k] < n
    }

    /// Two empty queues.
    pub fn new() -> (r: Self)
        ensures
            r.visible@ == Seq::<usize>::empty(),
            r.hidden@ == Seq::<usize>::empty(),
    {
        WorkQueues { visible: VecDeque::new(), hidden: VecDeque::new() }
    }

    /// The number of indices queued in `band`.
    pub fn len(&self, band: Band) -> (r: usize)
        ensures
            r == self.band(band).len(),
    {
        match band {
            Band::Visible => self.visible.len(),
            Band::Hidden => self.hidden.len(),
        }
    }

    /// Takes the index at the front of `band`, if there is one.
    pub fn pop_front(&mut self, band: Band) -> (r: Option<usize>)
        ensures
            final(self).other(band) == old(self).other(band),
            old(self).band(band).len() == 0 ==> r is None,
            old(self).band(band).len() == 0 ==> final(self).band(band) == old(self).band(band),
            old(self).band(band).len() > 0 ==> r == Some(old(self).band(band)[0]),
            old(self).band(band).len() > 0 ==> final(self).band(band) == old(self).band(
                band,
            ).skip(1),
    {
        let r = match band {
            Band::Visible => self.visible.pop_front(),
            Band::Hidden => self.hidden.pop_front(),
        };
        proof {
            if old(self).band(band).len() > 0 {
                assert(final(self).band(band) =~= old(self).band(band).skip(1));
            }
        }
        r
    }

    /// Puts `i` at the front of `band`.
    pub fn push_front(&mut self, band: Band, i: usize)
        ensures
            final(self).other(band) == old(self).other(band),
            final(self).band(band) == seq![i] + old(self).band(band),
    {
        match band {
            Band::Visible => self.visible.push_front(i),
            Band::Hidden => self.hidden.push_front(i),
        }
    }

    /// Puts `i` at the back of `band`.
    pub fn push_back(&mut self, band: Band, i: usize)
        ensures
            final(self).other(band) == old(self).other(band),
            final(self).band(band) == old(self).band(band).push(i),
    {
        match band {
            Band::Visible => self.visible.push_back(i),
            Band::Hidden => self.hidden.push_back(i),
        }
    }

    /// Empties both queues.
    pub fn clear(&mut self)
        ensures
            final(self).visible@ == Seq::<usize>::empty(),
            final(self).hidden@ == Seq::<usize>::empty(),
    {
        self.visible.clear();
        self.hidden.clear();
    }
}

} // verus!
