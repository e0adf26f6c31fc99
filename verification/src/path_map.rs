//! A map from paths to values, in which a path is found by its components.

use crate::path;
use crate::path::UnixPath;
use std::collections::HashMap;
use vstd::prelude::*;

verus! {

/// The map that a list of pairs stands for: of two pairs for one path, the
/// later counts.
pub open spec fn map_of<V>(s: Seq<(UnixPath, V)>) -> Map<path::PathKey, V>
    decreases s.len(),
{
    if s.len() == 0 {
        Map::empty()
    } else {
        map_of(s.drop_last()).insert(s.last().0.key(), s.last().1)
    }
}

/// A few paths with their values.
struct Bucket<V> {
    items: Vec<(UnixPath, V)>,
}

impl<V> View for Bucket<V> {
    type V = Map<path::PathKey, V>;

    closed spec fn view(&self) -> Map<path::PathKey, V> {
        map_of(self.items@)
    }
}

impl<V: Copy> Bucket<V> {
    /// No paths.
    fn new() -> (r: Self)
        ensures
            r@ == Map::<path::PathKey, V>::empty(),
    {
        Bucket { items: Vec::new() }
    }

    /// The value of `path`.
    fn get(&self, path: &UnixPath) -> (r: Option<V>)
        ensures
            match r {
                Some(v) => self@.contains_key(path.key()) && self@[path.key()] == v,
                None => !self@.contains_key(path.key()),
            },
    {
        let ghost all = self.items@;
        let mut found: Option<V> = None;
        let mut i: usize = 0;
        assert(all.take(0) =~= Seq::<(UnixPath, V)>::empty());
        while i < self.items.len()
            invariant
                i <= self.items@.len(),
                all == self.items@,
                match found {
                    Some(v) => map_of(all.take(i as int)).contains_key(path.key()) && map_of(
                        all.take(i as int),
                    )[path.key()] == v,
                    None => !map_of(all.take(i as int)).contains_key(path.key()),
                },
            decreases self.items@.len() - i,
        {
            assert(all.take(i + 1).drop_last() =~= all.take(i as int));
            assert(all.take(i + 1).last() == all[i as int]);
            if self.items[i].0.same_path(path) {
                found = Some(self.items[i].1);
            }
            i += 1;
        }
        assert(all.take(all.len() as int) =~= all);
        found
    }

    /// Takes `path` out and returns the value that it had.
    fn remove(&mut self, path: &UnixPath) -> (r: Option<V>)
        ensures
            final(self)@ == old(self)@.remove(path.key()),
            match r {
                Some(v) => old(self)@.contains_key(path.key()) && old(self)@[path.key()] == v,
                None => !old(self)@.contains_key(path.key()),
            },
    {
        let found = self.get(path);
        let ghost k = path.key();
        let ghost before = self.items@;
        let mut earlier: Vec<(UnixPath, V)> = Vec::new();
        std::mem::swap(&mut earlier, &mut self.items);
        let mut kept: Vec<(UnixPath, V)> = Vec::new();
        assert(before.take(0) =~= Seq::<(UnixPath, V)>::empty());
        assert(map_of(kept@) =~= map_of(before.take(0)).remove(k));
        for pair in it: earlier
            invariant
                it.seq() == before,
                k == path.key(),
                map_of(kept@) == map_of(before.take(it.index())).remove(k),
        {
            let ghost i = it.index();
            let ghost held = kept@;
            assert(before.take(i + 1).drop_last() =~= before.take(i));
            assert(before.take(i + 1).last() == pair);
            if !pair.0.same_path(path) {
                kept.push(pair);
                assert(kept@.drop_last() =~= held);
                assert(map_of(kept@) =~= map_of(before.take(i + 1)).remove(k));
            } else {
                assert(map_of(kept@) =~= map_of(before.take(i + 1)).remove(k));
            }
        }
        assert(before.take(before.len() as int) =~= before);
        self.items = kept;
        found
    }

    /// Gives `path` the value `value`.
    fn insert(&mut self, path: UnixPath, value: V)
        ensures
            final(self)@ == old(self)@.insert(path.key(), value),
    {
        self.remove(&path);
        let ghost held = self.items@;
        let ghost k = path.key();
        self.items.push((path, value));
        assert(self.items@.drop_last() =~= held);
        assert(self@ =~= old(self)@.insert(k, value));
    }
}

/// A map from paths to values. Paths are spread over buckets by a number that
/// their components give.
pub struct PathMap<V> {
    buckets: HashMap<u64, Bucket<V>>,
}

impl<V> PathMap<V> {
    /// The bucket with the number `n`.
    spec fn bucket(&self, n: u64) -> Map<path::PathKey, V> {
        if self.buckets@.contains_key(n) {
            self.buckets@[n]@
        } else {
            Map::empty()
        }
    }
}

impl<V> View for PathMap<V> {
    type V = Map<path::PathKey, V>;

    closed spec fn view(&self) -> Map<path::PathKey, V> {
        Map::new(
            |k: path::PathKey| self.bucket(path::number_of(k)).contains_key(k),
            |k: path::PathKey| self.bucket(path::number_of(k))[k],
        )
    }
}

impl<V: Copy> PathMap<V> {
    /// A map without paths.
    pub fn new() -> (r: Self)
        ensures
            r@ == Map::<path::PathKey, V>::empty(),
    {
        broadcast use vstd::std_specs::hash::group_hash_axioms;

        let r = PathMap { buckets: HashMap::new() };
        assert(r@ =~= Map::<path::PathKey, V>::empty());
        r
    }

    /// The value of `path`.
    pub fn get(&self, path: &UnixPath) -> (r: Option<V>)
        ensures
            match r {
                Some(v) => self@.contains_key(path.key()) && self@[path.key()] == v,
                None => !self@.contains_key(path.key()),
            },
    {
        broadcast use vstd::std_specs::hash::group_hash_axioms;

        match self.buckets.get(&path.number()) {
            Some(bucket) => bucket.get(path),
            None => None,
        }
    }

    /// Takes `path` out of the map and returns the value that it had.
    pub fn remove(&mut self, path: &UnixPath) -> (r: Option<V>)
        ensures
            final(self)@ == old(self)@.remove(path.key()),
            match r {
                Some(v) => old(self)@.contains_key(path.key()) && old(self)@[path.key()] == v,
                None => !old(self)@.contains_key(path.key()),
            },
    {
        broadcast use vstd::std_specs::hash::group_hash_axioms;

        let n: u64 = path.number();
        let found = match self.buckets.remove(&n) {
            Some(mut bucket) => {
                let found = bucket.remove(path);
                self.buckets.insert(n, bucket);
                found
            },
            None => None,
        };
        assert(self@ =~= old(self)@.remove(path.key()));
        found
    }

    /// Gives `path` the value `value`.
    pub fn insert(&mut self, path: UnixPath, value: V)
        ensures
            final(self)@ == old(self)@.insert(path.key(), value),
    {
        broadcast use vstd::std_specs::hash::group_hash_axioms;

        let n: u64 = path.number();
        let ghost k = path.key();
        let mut bucket = match self.buckets.remove(&n) {
            Some(bucket) => bucket,
            None => Bucket::new(),
        };
        bucket.insert(path, value);
        self.buckets.insert(n, bucket);
        assert(self@ =~= old(self)@.insert(k, value));
    }
}

} // verus!
