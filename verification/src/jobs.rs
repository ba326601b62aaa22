//! The set of images whose pyramid is being built.

use std::collections::BTreeSet;
use vstd::prelude::*;

verus! {

/// The images that have a thumbnail job running.
pub struct JobSet {
    /// The indices of those images.
    pub running: BTreeSet<usize>,
}

impl View for JobSet {
    type V = Set<usize>;

    open spec fn view(&self) -> Set<usize> {
        self.running@
    }
}

impl JobSet {
    /// No job.
    pub fn new() -> (r: Self)
        ensures
            r@ == Set::<usize>::empty(),
    {
        JobSet { running: BTreeSet::new() }
    }

    /// Whether image `i` has a job running.
    pub fn contains(&self, i: usize) -> (r: bool)
        ensures
            r == self@.contains(i),
    {
        broadcast use vstd::std_specs::btree::group_btree_axioms;
        broadcast use vstd::laws_cmp::group_laws_cmp;

        self.running.contains(&i)
    }

    /// Notes that image `i` has a job running.
    pub fn insert(&mut self, i: usize)
        ensures
            final(self)@ == old(self)@.insert(i),
    {
        broadcast use vstd::std_specs::btree::group_btree_axioms;
        broadcast use vstd::laws_cmp::group_laws_cmp;

        let _ = self.running.insert(i);
    }

    /// Notes that the job of image `i` is over. Returns whether it had one.
    pub fn remove(&mut self, i: usize) -> (r: bool)
        ensures
            final(self)@ == old(self)@.remove(i),
            r == old(self)@.contains(i),
    {
        broadcast use vstd::std_specs::btree::group_btree_axioms;
        broadcast use vstd::laws_cmp::group_laws_cmp;

        self.running.remove(&i)
    }

    /// The number of jobs running.
    pub fn len(&self) -> (r: usize)
        ensures
            r == self@.len(),
    {
        broadcast use vstd::std_specs::btree::group_btree_axioms;
        broadcast use vstd::laws_cmp::group_laws_cmp;

        self.running.len()
    }
}

} // verus!
