//! The in-memory cache of decoded tiles, by tile key.

use crate::key::TileRef;
use crate::pyramid::{lemma_levels_disjoint, Metadata};
use std::collections::BTreeMap;
use vstd::prelude::*;

verus! {

/// The keys of `level` among the levels of `m`.
pub open spec fn level_keys(m: Metadata, level: int) -> Set<u64> {
    Set::new(
        |k: u64|
            exists|a: int|
                0 <= a < m.thumbs@[level].tile_refs@.len() && (
                #[trigger] m.thumbs@[level].tile_refs@[a]).0 == k,
    )
}

/// The keys of the levels of `m` from `from` up to but not including `to`,
/// those of `level` left out.
pub open spec fn other_keys_between(m: Metadata, level: int, from: int, to: int) -> Set<u64> {
    Set::new(
        |k: u64|
            exists|j: int|
                from <= j < to && 0 <= j < m.thumbs@.len() && j != level
                    && #[trigger] level_keys(m, j).contains(k),
    )
}

/// The keys of every level of `m` but `level`.
pub open spec fn other_keys(m: Metadata, level: int) -> Set<u64> {
    other_keys_between(m, level, 0, m.thumbs@.len() as int)
}

/// The decoded tiles that are held in memory, each under its key.
pub struct TileCache<T> {
    /// The tiles by the 64-bit value of their key.
    pub tiles: BTreeMap<u64, T>,
}

impl<T> View for TileCache<T> {
    type V = Map<u64, T>;

    open spec fn view(&self) -> Map<u64, T> {
        self.tiles@
    }
}

impl<T> TileCache<T> {
    /// An empty cache.
    pub fn new() -> (r: Self)
        ensures
            r@ == Map::<u64, T>::empty(),
    {
        TileCache { tiles: BTreeMap::new() }
    }

    /// Whether a tile is held under `key`.
    pub fn contains(&self, key: TileRef) -> (r: bool)
        ensures
            r == self@.contains_key(key.0),
    {
        broadcast use vstd::std_specs::btree::group_btree_axioms;
        broadcast use vstd::laws_cmp::group_laws_cmp;

        self.tiles.contains_key(&key.0)
    }

    /// The tile held under `key`, if there is one.
    pub fn get(&self, key: TileRef) -> (r: Option<&T>)
        ensures
            r is Some <==> self@.contains_key(key.0),
            r matches Some(t) ==> *t == self@[key.0],
    {
        broadcast use vstd::std_specs::btree::group_btree_axioms;
        broadcast use vstd::laws_cmp::group_laws_cmp;

        self.tiles.get(&key.0)
    }

    /// Puts `tile` under `key`, in place of what was there.
    pub fn insert(&mut self, key: TileRef, tile: T)
        ensures
            final(self)@ == old(self)@.insert(key.0, tile),
    {
        broadcast use vstd::std_specs::btree::group_btree_axioms;
        broadcast use vstd::laws_cmp::group_laws_cmp;

        let _ = self.tiles.insert(key.0, tile);
    }

    /// Drops the tile under `key`, if there is one.
    pub fn remove(&mut self, key: TileRef)
        ensures
            final(self)@ == old(self)@.remove(key.0),
    {
        broadcast use vstd::std_specs::btree::group_btree_axioms;
        broadcast use vstd::laws_cmp::group_laws_cmp;

        let _ = self.tiles.remove(&key.0);
    }

    /// Drops every tile.
    pub fn clear(&mut self)
        ensures
            final(self)@ == Map::<u64, T>::empty(),
    {
        self.tiles.clear();
    }

    /// Drops the tiles of every level of `m` but `level`.
    pub fn evict_others(&mut self, m: &Metadata, level: usize)
        ensures
            final(self)@ == old(self)@.remove_keys(other_keys(*m, level as int)),
    {
        let n: usize = m.thumbs.len();
        let mut j: usize = 0;
        assert(self@ =~= old(self)@.remove_keys(other_keys_between(*m, level as int, 0, 0)));
        while j < n
            invariant
                n == m.thumbs@.len(),
                j <= n,
                self@ == old(self)@.remove_keys(other_keys_between(*m, level as int, 0, j as int)),
            decreases n - j,
        {
            let ghost done = other_keys_between(*m, level as int, 0, j as int);
            if j != level {
                let keys = &m.thumbs[j].tile_refs;
                let count: usize = keys.len();
                let mut a: usize = 0;
                let ghost mut gone: Set<u64> = Set::empty();
                assert(self@ =~= old(self)@.remove_keys(done + gone));
                while a < count
                    invariant
                        j < m.thumbs@.len(),
                        *keys == m.thumbs@[j as int].tile_refs,
                        count == keys@.len(),
                        a <= count,
                        forall|k: u64|
                            gone.contains(k) <==> exists|b: int|
                                0 <= b < a && (#[trigger] keys@[b]).0 == k,
                        self@ == old(self)@.remove_keys(done + gone),
                    decreases count - a,
                {
                    let key = keys[a];
                    self.remove(key);
                    proof {
                        let more = gone.insert(key.0);
                        assert(self@ =~= old(self)@.remove_keys(done + more));
                        assert forall|k: u64| more.contains(k) <==> exists|b: int|
                            0 <= b < a + 1 && (#[trigger] keys@[b]).0 == k by {
                            if more.contains(k) {
                                if k == key.0 {
                                    assert(keys@[a as int].0 == k);
                                } else {
                                    let b = choose|b: int|
                                        0 <= b < a && (#[trigger] keys@[b]).0 == k;
                                    assert(keys@[b].0 == k);
                                }
                            }
                        }
                        gone = more;
                    }
                    a += 1;
                }
                proof {
                    assert(gone =~= level_keys(*m, j as int));
                    let next = other_keys_between(*m, level as int, 0, j + 1);
                    assert forall|k: u64| next.contains(k) <==> (done + gone).contains(k) by {
                        if next.contains(k) {
                            let i = choose|i: int|
                                0 <= i < j + 1 && 0 <= i < m.thumbs@.len() && i != level
                                    && #[trigger] level_keys(*m, i).contains(k);
                            if i < j {
                                assert(level_keys(*m, i).contains(k));
                            }
                        }
                        if done.contains(k) {
                            let i = choose|i: int|
                                0 <= i < j && 0 <= i < m.thumbs@.len() && i != level
                                    && #[trigger] level_keys(*m, i).contains(k);
                            assert(level_keys(*m, i).contains(k));
                        }
                        if gone.contains(k) {
                            assert(level_keys(*m, j as int).contains(k));
                        }
                    }
                    assert(next =~= done + gone);
                }
            } else {
                proof {
                    let next = other_keys_between(*m, level as int, 0, j + 1);
                    assert forall|k: u64| next.contains(k) <==> done.contains(k) by {
                        if next.contains(k) {
                            let i = choose|i: int|
                                0 <= i < j + 1 && 0 <= i < m.thumbs@.len() && i != level
                                    && #[trigger] level_keys(*m, i).contains(k);
                            assert(level_keys(*m, i).contains(k));
                        }
                        if done.contains(k) {
                            let i = choose|i: int|
                                0 <= i < j && 0 <= i < m.thumbs@.len() && i != level
                                    && #[trigger] level_keys(*m, i).contains(k);
                            assert(level_keys(*m, i).contains(k));
                        }
                    }
                    assert(next =~= done);
                }
            }
            j += 1;
        }
    }

    /// The number of tiles held.
    pub fn len(&self) -> (r: usize)
        ensures
            r == self@.len(),
    {
        broadcast use vstd::std_specs::btree::group_btree_axioms;
        broadcast use vstd::laws_cmp::group_laws_cmp;

        self.tiles.len()
    }
}

/// In a valid pyramid a key of one level is a key of no other level.
pub proof fn lemma_level_keys_apart(m: Metadata, level: int, k: u64)
    requires
        m.wf(),
        0 <= level < m.thumbs@.len(),
        level_keys(m, level).contains(k),
    ensures
        !other_keys(m, level).contains(k),
{
    if other_keys(m, level).contains(k) {
        let j = choose|j: int|
            0 <= j < m.thumbs@.len() && 0 <= j < m.thumbs@.len() && j != level
                && #[trigger] level_keys(m, j).contains(k);
        let a = choose|a: int|
            0 <= a < m.thumbs@[level].tile_refs@.len() && (
            #[trigger] m.thumbs@[level].tile_refs@[a]).0 == k;
        let b = choose|b: int|
            0 <= b < m.thumbs@[j].tile_refs@.len() && (#[trigger] m.thumbs@[j].tile_refs@[b]).0
                == k;
        lemma_levels_disjoint(m.thumbs@, level, a, j, b);
    }
}

} // verus!
