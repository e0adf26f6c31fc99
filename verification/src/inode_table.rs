//! Inode numbers for the paths of the backing directory.

use crate::path;
use crate::path::UnixPath;
use crate::path_map::PathMap;
use std::collections::HashMap;
use vstd::prelude::*;

verus! {

/// A number by which the kernel speaks of a file.
pub type INodeNo = u64;

/// The number of the root directory.
pub const ROOT: u64 = 1;

/// What a table of inodes holds.
#[verifier::ext_equal]
pub struct TableView {
    /// The bytes of the path of each inode.
    pub paths: Map<u64, Seq<u8>>,
    /// The inode of each path.
    pub by_path: Map<path::PathKey, u64>,
    /// The number that the next new path gets.
    pub next: u64,
}

/// The two directions agree: the inode of a path has that path, and every
/// inode was given out.
pub open spec fn consistent(t: TableView) -> bool {
    &&& t.next >= 2
    &&& forall|k: path::PathKey| #[trigger]
        t.by_path.contains_key(k) ==> t.paths.contains_key(t.by_path[k]) && path::key_of(
            t.paths[t.by_path[k]],
        ) == k
    &&& forall|i: u64| #[trigger] t.paths.contains_key(i) ==> 1 <= i < t.next
}

/// The table of a fresh mount: the root and nothing else.
pub open spec fn fresh(root: Seq<u8>) -> TableView {
    TableView {
        paths: Map::<u64, Seq<u8>>::empty().insert(ROOT, root),
        by_path: Map::<path::PathKey, u64>::empty().insert(path::key_of(root), ROOT),
        next: 2,
    }
}

/// Whether a path has an inode or can be given one.
pub open spec fn has_room(t: TableView, path: Seq<u8>) -> bool {
    t.by_path.contains_key(path::key_of(path)) || t.next < u64::MAX
}

/// The inode that a lookup of `path` gives: its own, or the next number.
pub open spec fn ino_of(t: TableView, path: Seq<u8>) -> u64 {
    if t.by_path.contains_key(path::key_of(path)) {
        t.by_path[path::key_of(path)]
    } else {
        t.next
    }
}

/// The table after a lookup of `path`.
pub open spec fn entered(t: TableView, path: Seq<u8>) -> TableView {
    if t.by_path.contains_key(path::key_of(path)) {
        t
    } else {
        TableView {
            paths: t.paths.insert(t.next, path),
            by_path: t.by_path.insert(path::key_of(path), t.next),
            next: (t.next + 1) as u64,
        }
    }
}

/// The table after a rename: the inode of `from`, where it has one, is now
/// that of `to`.
pub open spec fn renamed(t: TableView, from: Seq<u8>, to: Seq<u8>) -> TableView {
    let k = path::key_of(from);
    if t.by_path.contains_key(k) {
        TableView {
            paths: t.paths.insert(t.by_path[k], to),
            by_path: t.by_path.remove(k).insert(path::key_of(to), t.by_path[k]),
            next: t.next,
        }
    } else {
        t
    }
}

/// The table without `path` and its inode.
pub open spec fn forgotten(t: TableView, path: Seq<u8>) -> TableView {
    let k = path::key_of(path);
    if t.by_path.contains_key(k) {
        TableView {
            paths: t.paths.remove(t.by_path[k]),
            by_path: t.by_path.remove(k),
            next: t.next,
        }
    } else {
        t
    }
}

/// Maps FUSE inode numbers to real backing-filesystem paths and back.
/// The root directory is always inode 1.
pub struct InodeTable {
    paths: HashMap<u64, UnixPath>,
    by_path: PathMap<u64>,
    next: u64,
}

impl View for InodeTable {
    type V = TableView;

    closed spec fn view(&self) -> TableView {
        TableView {
            paths: Map::new(|i: u64| self.paths@.contains_key(i), |i: u64| self.paths@[i]@),
            by_path: self.by_path@,
            next: self.next,
        }
    }
}

impl InodeTable {
    pub fn new(root: UnixPath) -> (r: Self)
        ensures
            r@ == fresh(root@),
            consistent(r@),
    {
        broadcast use vstd::std_specs::hash::group_hash_axioms;

        let mut paths: HashMap<u64, UnixPath> = HashMap::new();
        let mut by_path: PathMap<u64> = PathMap::new();
        paths.insert(ROOT, root.clone());
        by_path.insert(root, ROOT);
        let r = InodeTable { paths, by_path, next: 2 };
        assert(r@ =~= fresh(root@));
        r
    }

    /// The path of an inode.
    pub fn path(&self, ino: INodeNo) -> (r: Option<UnixPath>)
        ensures
            match r {
                Some(p) => self@.paths.contains_key(ino) && p@ == self@.paths[ino],
                None => !self@.paths.contains_key(ino),
            },
    {
        broadcast use vstd::std_specs::hash::group_hash_axioms;

        match self.paths.get(&ino) {
            Some(p) => Some(p.clone()),
            None => None,
        }
    }

    /// How many new paths can still be given an inode.
    pub fn room(&self) -> (r: u64)
        ensures
            r == u64::MAX - self@.next,
    {
        u64::MAX - self.next
    }

    /// Returns the existing inode for `path`, allocating a new one if this
    /// path hasn't been seen before.
    pub fn ino_for(&mut self, path: UnixPath) -> (r: INodeNo)
        requires
            has_room(old(self)@, path@),
        ensures
            r == ino_of(old(self)@, path@),
            final(self)@ == entered(old(self)@, path@),
    {
        broadcast use vstd::std_specs::hash::group_hash_axioms;

        if let Some(ino) = self.by_path.get(&path) {
            return ino;
        }
        let ino: u64 = self.next;
        self.next = self.next + 1;
        self.paths.insert(ino, path.clone());
        self.by_path.insert(path, ino);
        assert(self@ =~= entered(old(self)@, path@));
        ino
    }

    /// Updates the table when a path is renamed/moved, keeping its inode
    /// number stable across the rename.
    pub fn rename(&mut self, from: &UnixPath, to: UnixPath)
        ensures
            final(self)@ == renamed(old(self)@, from@, to@),
    {
        broadcast use vstd::std_specs::hash::group_hash_axioms;

        if let Some(ino) = self.by_path.remove(from) {
            self.paths.insert(ino, to.clone());
            self.by_path.insert(to, ino);
        }
        assert(self@ =~= renamed(old(self)@, from@, to@));
    }

    /// Drops a path from the table, e.g. after unlink/rmdir.
    pub fn forget_path(&mut self, path: &UnixPath)
        ensures
            final(self)@ == forgotten(old(self)@, path@),
    {
        broadcast use vstd::std_specs::hash::group_hash_axioms;

        if let Some(ino) = self.by_path.remove(path) {
            self.paths.remove(&ino);
        }
        assert(self@ =~= forgotten(old(self)@, path@));
    }
}

/// Every operation keeps the two directions of a table in agreement.
pub proof fn law_operations_keep_the_table_consistent(t: TableView, path: Seq<u8>, to: Seq<u8>)
    requires
        consistent(t),
    ensures
        has_room(t, path) ==> consistent(entered(t, path)),
        consistent(renamed(t, path, to)),
        consistent(forgotten(t, path)),
{
}

/// In a consistent table different paths have different inodes.
pub proof fn law_different_paths_have_different_inodes(
    t: TableView,
    a: path::PathKey,
    b: path::PathKey,
)
    requires
        consistent(t),
        t.by_path.contains_key(a),
        t.by_path.contains_key(b),
        a != b,
    ensures
        t.by_path[a] != t.by_path[b],
{
    assert(path::key_of(t.paths[t.by_path[a]]) == a);
}

/// A path that is new to a consistent table gets an inode that nothing has: not
/// the root and not another path.
pub proof fn law_new_inode_is_fresh(t: TableView, path: Seq<u8>)
    requires
        consistent(t),
        !t.by_path.contains_key(path::key_of(path)),
    ensures
        ino_of(t, path) != ROOT,
        !t.paths.contains_key(ino_of(t, path)),
{
}

/// The inode that a lookup gives has the path that was looked up, and a second
/// lookup gives the same inode and leaves the table as it is.
pub proof fn law_repeated_lookup_reuses_the_inode(t: TableView, path: Seq<u8>)
    requires
        consistent(t),
        has_room(t, path),
    ensures
        entered(t, path).paths.contains_key(ino_of(t, path)),
        path::key_of(entered(t, path).paths[ino_of(t, path)]) == path::key_of(path),
        ino_of(entered(t, path), path) == ino_of(t, path),
        entered(entered(t, path), path) == entered(t, path),
{
}

/// A rename keeps the inode number: the inode of the old path has the new one,
/// and the new path has that inode.
pub proof fn law_rename_keeps_the_inode(t: TableView, from: Seq<u8>, to: Seq<u8>)
    requires
        t.by_path.contains_key(path::key_of(from)),
    ensures
        ino_of(renamed(t, from, to), to) == ino_of(t, from),
        renamed(t, from, to).paths[ino_of(t, from)] == to,
        path::key_of(to) != path::key_of(from) ==> !renamed(t, from, to).by_path.contains_key(
            path::key_of(from),
        ),
{
}

/// A forgotten path is gone: its inode has no path, and a later lookup of the
/// path gets another number.
pub proof fn law_forgotten_path_is_gone(t: TableView, path: Seq<u8>)
    requires
        consistent(t),
        t.by_path.contains_key(path::key_of(path)),
    ensures
        !forgotten(t, path).paths.contains_key(ino_of(t, path)),
        !forgotten(t, path).by_path.contains_key(path::key_of(path)),
        ino_of(forgotten(t, path), path) != ino_of(t, path),
{
}

/// A lookup of a path that has an inode gives that one and changes nothing; of one
/// that has none it gives the next number, adds that in both directions, and
/// leaves every other inode and path as it is.
pub proof fn law_lookup_adds_at_most_one_inode(
    t: TableView,
    path: Seq<u8>,
    ino: u64,
    k: path::PathKey,
)
    requires
        t.next < 0xffff_ffff_ffff_ffff,
    ensures
        t.by_path.contains_key(path::key_of(path)) ==> {
            &&& ino_of(t, path) == t.by_path[path::key_of(path)]
            &&& entered(t, path) == t
        },
        !t.by_path.contains_key(path::key_of(path)) ==> {
            &&& ino_of(t, path) == t.next
            &&& entered(t, path).next == t.next + 1
            &&& entered(t, path).paths.contains_key(t.next)
            &&& entered(t, path).paths[t.next] == path
            &&& entered(t, path).by_path.contains_key(path::key_of(path))
            &&& entered(t, path).by_path[path::key_of(path)] == t.next
            &&& ino != t.next ==> {
                &&& entered(t, path).paths.contains_key(ino) == t.paths.contains_key(ino)
                &&& t.paths.contains_key(ino) ==> entered(t, path).paths[ino] == t.paths[ino]
            }
            &&& k != path::key_of(path) ==> {
                &&& entered(t, path).by_path.contains_key(k) == t.by_path.contains_key(k)
                &&& t.by_path.contains_key(k) ==> entered(t, path).by_path[k] == t.by_path[k]
            }
        },
{
}

/// A rename moves one inode and no other: its number leads to the new path, the
/// new path to its number, and the old path to nothing. A path that has no inode
/// leaves the table as it is.
pub proof fn law_rename_moves_one_inode(
    t: TableView,
    from: Seq<u8>,
    to: Seq<u8>,
    ino: u64,
    k: path::PathKey,
)
    ensures
        !t.by_path.contains_key(path::key_of(from)) ==> renamed(t, from, to) == t,
        t.by_path.contains_key(path::key_of(from)) ==> {
            let moved = t.by_path[path::key_of(from)];
            let after = renamed(t, from, to);
            &&& after.next == t.next
            &&& after.paths.contains_key(moved) && after.paths[moved] == to
            &&& after.by_path.contains_key(path::key_of(to))
            &&& after.by_path[path::key_of(to)] == moved
            &&& path::key_of(from) != path::key_of(to) ==> !after.by_path.contains_key(
                path::key_of(from),
            )
            &&& ino != moved ==> {
                &&& after.paths.contains_key(ino) == t.paths.contains_key(ino)
                &&& t.paths.contains_key(ino) ==> after.paths[ino] == t.paths[ino]
            }
            &&& k != path::key_of(from) && k != path::key_of(to) ==> {
                &&& after.by_path.contains_key(k) == t.by_path.contains_key(k)
                &&& t.by_path.contains_key(k) ==> after.by_path[k] == t.by_path[k]
            }
        },
{
}

/// To forget a path takes its inode away and no other. A path that has no inode
/// leaves the table as it is.
pub proof fn law_forgetting_takes_one_inode_away(
    t: TableView,
    path: Seq<u8>,
    ino: u64,
    k: path::PathKey,
)
    ensures
        !t.by_path.contains_key(path::key_of(path)) ==> forgotten(t, path) == t,
        t.by_path.contains_key(path::key_of(path)) ==> {
            let gone = t.by_path[path::key_of(path)];
            let after = forgotten(t, path);
            &&& after.next == t.next
            &&& !after.paths.contains_key(gone)
            &&& !after.by_path.contains_key(path::key_of(path))
            &&& ino != gone ==> {
                &&& after.paths.contains_key(ino) == t.paths.contains_key(ino)
                &&& t.paths.contains_key(ino) ==> after.paths[ino] == t.paths[ino]
            }
            &&& k != path::key_of(path) ==> {
                &&& after.by_path.contains_key(k) == t.by_path.contains_key(k)
                &&& t.by_path.contains_key(k) ==> after.by_path[k] == t.by_path[k]
            }
        },
{
}

/// A fresh mount has the root as the inode 1, and nothing else.
pub proof fn law_fresh_table_has_the_root_only(root: Seq<u8>, ino: u64, k: path::PathKey)
    ensures
        fresh(root).next == 2,
        fresh(root).paths.contains_key(ino) <==> ino == 1,
        fresh(root).paths[1] == root,
        fresh(root).by_path.contains_key(k) <==> k == path::key_of(root),
        fresh(root).by_path[path::key_of(root)] == 1,
{
}

/// A path can be given an inode unless the numbers have run out and it has none.
pub proof fn law_room_for_a_path(t: TableView, path: Seq<u8>)
    ensures
        !has_room(t, path) <==> t.next == 0xffff_ffff_ffff_ffff && !t.by_path.contains_key(
            path::key_of(path),
        ),
{
}

} // verus!
