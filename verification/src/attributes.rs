//! The attributes of a file: how those of the backing file are shown, and how
//! a request to change them is carried out.

use crate::errno::Errno;
use crate::inode_table::INodeNo;
use vstd::prelude::*;

verus! {

/// What kind of thing a name in the vault stands for.
#[derive(Debug, Clone, Copy, PartialEq, Eq, Structural)]
pub enum FileType {
    Directory,
    Symlink,
    RegularFile,
}

/// A point in time: seconds since the epoch, and nanoseconds past that second.
#[derive(Debug, Clone, Copy, PartialEq, Eq, Structural)]
pub struct Timestamp {
    pub secs: i64,
    pub nanos: u32,
}

/// What the backing filesystem says of a file.
#[derive(Debug, Clone, Copy, PartialEq, Eq, Structural)]
pub struct BackingMeta {
    pub is_dir: bool,
    pub is_symlink: bool,
    pub size: u64,
    pub blocks: u64,
    pub accessed: Option<Timestamp>,
    pub modified: Option<Timestamp>,
    pub created: Option<Timestamp>,
    pub mode: u32,
    pub nlink: u64,
    pub uid: u32,
    pub gid: u32,
    pub rdev: u64,
    pub blksize: u64,
}

/// What the vault says of a file.
#[derive(Debug, Clone, Copy, PartialEq, Eq, Structural)]
pub struct FileAttr {
    pub ino: INodeNo,
    pub size: u64,
    pub blocks: u64,
    pub atime: Timestamp,
    pub mtime: Timestamp,
    pub ctime: Timestamp,
    pub crtime: Timestamp,
    pub kind: FileType,
    pub perm: u16,
    pub nlink: u32,
    pub uid: u32,
    pub gid: u32,
    pub rdev: u32,
    pub blksize: u32,
    pub flags: u32,
}

/// A time, or the epoch where the backing filesystem has none.
pub open spec fn time_or_epoch(t: Option<Timestamp>) -> Timestamp {
    match t {
        Some(t) => t,
        None => Timestamp { secs: 0, nanos: 0 },
    }
}

/// What the low 32 bits of a number hold.
pub open spec fn low_half(n: u64) -> u32 {
    (n % 0x1_0000_0000) as u32
}

/// The kind of a backing file: whatever is neither a directory nor a symlink
/// is shown as a regular file.
pub open spec fn kind_of(meta: BackingMeta) -> FileType {
    if meta.is_dir {
        FileType::Directory
    } else if meta.is_symlink {
        FileType::Symlink
    } else {
        FileType::RegularFile
    }
}

/// The attributes of the file with the inode `ino` whose backing file is
/// `meta`.
pub open spec fn attr_of(ino: INodeNo, meta: BackingMeta) -> FileAttr {
    FileAttr {
        ino,
        size: meta.size,
        blocks: meta.blocks,
        atime: time_or_epoch(meta.accessed),
        mtime: time_or_epoch(meta.modified),
        ctime: time_or_epoch(meta.modified),
        crtime: time_or_epoch(meta.created),
        kind: kind_of(meta),
        perm: (meta.mode % 0o10000) as u16,
        nlink: low_half(meta.nlink),
        uid: meta.uid,
        gid: meta.gid,
        rdev: low_half(meta.rdev),
        blksize: low_half(meta.blksize),
        flags: 0,
    }
}

fn or_epoch(t: Option<Timestamp>) -> (r: Timestamp)
    ensures
        r == time_or_epoch(t),
{
    match t {
        Some(t) => t,
        None => Timestamp { secs: 0, nanos: 0 },
    }
}

/// The attributes under which a backing file is shown.
pub fn attr_from_metadata(ino: INodeNo, meta: &BackingMeta) -> (r: FileAttr)
    ensures
        r == attr_of(ino, *meta),
{
    let kind = if meta.is_dir {
        FileType::Directory
    } else if meta.is_symlink {
        FileType::Symlink
    } else {
        FileType::RegularFile
    };
    FileAttr {
        ino,
        size: meta.size,
        blocks: meta.blocks,
        atime: or_epoch(meta.accessed),
        mtime: or_epoch(meta.modified),
        ctime: or_epoch(meta.modified),
        crtime: or_epoch(meta.created),
        kind,
        perm: (meta.mode % 0o10000) as u16,
        nlink: (meta.nlink % 0x1_0000_0000) as u32,
        uid: meta.uid,
        gid: meta.gid,
        rdev: (meta.rdev % 0x1_0000_0000) as u32,
        blksize: (meta.blksize % 0x1_0000_0000) as u32,
        flags: 0,
    }
}

/// A time that a request sets.
#[derive(Debug, Clone, Copy, PartialEq, Eq, Structural)]
pub enum TimeOrNow {
    SpecificTime(Timestamp),
    Now,
}

/// The time that a request asks for, when it is `now`.
pub open spec fn time_asked(t: TimeOrNow, now: Timestamp) -> Timestamp {
    match t {
        TimeOrNow::SpecificTime(st) => st,
        TimeOrNow::Now => now,
    }
}

/// The time that a request asks for, when it is `now`.
pub fn filetime_from(t: TimeOrNow, now: Timestamp) -> (r: Timestamp)
    ensures
        r == time_asked(t, now),
{
    match t {
        TimeOrNow::SpecificTime(st) => st,
        TimeOrNow::Now => now,
    }
}

/// The time to set: the one that is asked for, or the one that the file has.
pub fn new_time(asked: Option<TimeOrNow>, current: Timestamp, now: Timestamp) -> (r: Timestamp)
    ensures
        r == match asked {
            Some(t) => time_asked(t, now),
            None => current,
        },
{
    match asked {
        Some(t) => filetime_from(t, now),
        None => current,
    }
}

/// The id that leaves the owner or the group of a file as it is.
pub const KEEP_ID: u32 = 0xffff_ffff;

/// An id to set, or the one that changes nothing.
pub open spec fn id_or_keep(id: Option<u32>) -> u32 {
    match id {
        Some(id) => id,
        None => KEEP_ID,
    }
}

/// The ids to hand to `chown(2)`, which has no other way to say "only the
/// owner" or "only the group".
pub fn chown_ids(uid: Option<u32>, gid: Option<u32>) -> (r: (u32, u32))
    ensures
        r == (id_or_keep(uid), id_or_keep(gid)),
{
    let uid: u32 = match uid {
        Some(id) => id,
        None => KEEP_ID,
    };
    let gid: u32 = match gid {
        Some(id) => id,
        None => KEEP_ID,
    };
    (uid, gid)
}

/// A request to change attributes: each is changed where it is given.
#[derive(Debug, Clone, Copy, PartialEq, Eq, Structural)]
pub struct AttrChanges {
    pub size: Option<u64>,
    pub mode: Option<u32>,
    pub uid: Option<u32>,
    pub gid: Option<u32>,
    pub atime: Option<TimeOrNow>,
    pub mtime: Option<TimeOrNow>,
}

/// One thing to do to a file when its attributes are changed.
#[derive(Debug, Clone, Copy, PartialEq, Eq, Structural)]
pub enum AttrStage {
    /// Set the length.
    Truncate(u64),
    /// Set the permission bits.
    Chmod(u32),
    /// Set the owner and the group.
    Chown(u32, u32),
    /// Set the times of the last access and the last modification; one that is
    /// not given stays as it is.
    SetTimes(Option<TimeOrNow>, Option<TimeOrNow>),
    /// Read the attributes, to answer with them.
    Stat,
}

pub open spec fn truncate_stage(c: AttrChanges) -> Seq<AttrStage> {
    match c.size {
        Some(size) => seq![AttrStage::Truncate(size)],
        None => Seq::empty(),
    }
}

pub open spec fn chmod_stage(c: AttrChanges) -> Seq<AttrStage> {
    match c.mode {
        Some(mode) => seq![AttrStage::Chmod(mode)],
        None => Seq::empty(),
    }
}

pub open spec fn chown_stage(c: AttrChanges) -> Seq<AttrStage> {
    if c.uid is Some || c.gid is Some {
        seq![AttrStage::Chown(id_or_keep(c.uid), id_or_keep(c.gid))]
    } else {
        Seq::empty()
    }
}

pub open spec fn times_stage(c: AttrChanges) -> Seq<AttrStage> {
    if c.atime is Some || c.mtime is Some {
        seq![AttrStage::SetTimes(c.atime, c.mtime)]
    } else {
        Seq::empty()
    }
}

/// All that is to be done for a request, in its order: length, permissions,
/// owner, times, and a last look at the file.
pub open spec fn stages(c: AttrChanges) -> Seq<AttrStage> {
    truncate_stage(c) + chmod_stage(c) + chown_stage(c) + times_stage(c) + seq![AttrStage::Stat]
}

/// A change of attributes that is under way: what it still has to do.
#[derive(Debug, Clone, Copy, PartialEq, Eq, Structural)]
pub struct AttrRun {
    pub left: AttrChanges,
}

impl AttrRun {
    /// What is still to be done, in order.
    pub open spec fn plan(&self) -> Seq<AttrStage> {
        stages(self.left)
    }

    /// A change of attributes that has not started.
    pub fn new(changes: AttrChanges) -> (r: Self)
        ensures
            r.plan() == stages(changes),
            r.left == changes,
    {
        AttrRun { left: changes }
    }

    /// What to do next, from how the last thing to do went (`Ok` at the
    /// start). The first failure ends the change, with its error. The last
    /// thing to do is to look at the file, and stays.
    pub fn step(&mut self, last: Result<(), Errno>) -> (r: Result<AttrStage, Errno>)
        ensures
            match last {
                Err(e) => r == Err::<AttrStage, Errno>(e) && *final(self) == *old(self),
                Ok(_) => {
                    &&& r == Ok::<AttrStage, Errno>(old(self).plan()[0])
                    &&& final(self).plan() == if old(self).plan().len() > 1 {
                        old(self).plan().drop_first()
                    } else {
                        old(self).plan()
                    }
                },
            },
    {
        if let Err(e) = last {
            return Err(e);
        }
        let ghost before = self.plan();
        if let Some(size) = self.left.size {
            self.left.size = None;
            assert(self.plan() =~= before.drop_first());
            return Ok(AttrStage::Truncate(size));
        }
        if let Some(mode) = self.left.mode {
            self.left.mode = None;
            assert(self.plan() =~= before.drop_first());
            return Ok(AttrStage::Chmod(mode));
        }
        if self.left.uid.is_some() || self.left.gid.is_some() {
            let (uid, gid) = chown_ids(self.left.uid, self.left.gid);
            self.left.uid = None;
            self.left.gid = None;
            assert(self.plan() =~= before.drop_first());
            return Ok(AttrStage::Chown(uid, gid));
        }
        if self.left.atime.is_some() || self.left.mtime.is_some() {
            let atime = self.left.atime;
            let mtime = self.left.mtime;
            self.left.atime = None;
            self.left.mtime = None;
            assert(self.plan() =~= before.drop_first());
            return Ok(AttrStage::SetTimes(atime, mtime));
        }
        assert(before =~= seq![AttrStage::Stat]);
        Ok(AttrStage::Stat)
    }
}

/// Every change of attributes ends with a look at the file, and looks at it
/// only then.
pub proof fn law_change_ends_with_a_look(c: AttrChanges)
    ensures
        1 <= stages(c).len() <= 5,
        stages(c).last() == AttrStage::Stat,
        forall|i: int| 0 <= i < stages(c).len() - 1 ==> #[trigger] stages(c)[i] != AttrStage::Stat,
{
}

/// Every change that is asked for is carried out, with the value that is asked
/// for, and nothing else is: the length, the permission bits, the owner and the
/// group together where either is given (the one that is not given is handed over
/// as the id with all bits set), the two times together where either is given.
pub proof fn law_what_is_asked_is_carried_out(
    c: AttrChanges,
    size: u64,
    mode: u32,
    uid: u32,
    gid: u32,
    atime: Option<TimeOrNow>,
    mtime: Option<TimeOrNow>,
)
    ensures
        ({
            let plan = (AttrRun { left: c }).plan();
            &&& plan.contains(AttrStage::Truncate(size)) <==> c.size == Some(size)
            &&& plan.contains(AttrStage::Chmod(mode)) <==> c.mode == Some(mode)
            &&& plan.contains(AttrStage::Chown(uid, gid)) <==> {
                &&& c.uid is Some || c.gid is Some
                &&& c.uid == Some(uid) || (c.uid is None && uid == 0xffff_ffff)
                &&& c.gid == Some(gid) || (c.gid is None && gid == 0xffff_ffff)
            }
            &&& plan.contains(AttrStage::SetTimes(atime, mtime)) <==> {
                &&& c.atime is Some || c.mtime is Some
                &&& atime == c.atime
                &&& mtime == c.mtime
            }
            &&& plan.contains(AttrStage::Stat)
        }),
{
    let plan = (AttrRun { left: c }).plan();
    let a = truncate_stage(c).len() as int;
    let b = a + chmod_stage(c).len();
    let d = b + chown_stage(c).len();
    let e = d + times_stage(c).len();
    assert(a == 1 ==> plan[0] == truncate_stage(c)[0]);
    assert(b > a ==> plan[a] == chmod_stage(c)[0]);
    assert(d > b ==> plan[b] == chown_stage(c)[0]);
    assert(e > d ==> plan[d] == times_stage(c)[0]);
    assert(plan[e] == AttrStage::Stat);
    assert(plan.len() == e + 1);
}

/// A change of attributes is carried out in one order, each part of it once: the
/// length, the permission bits, the owner and the group, the times, and last a
/// look at the file.
pub proof fn law_changes_are_carried_out_in_order(c: AttrChanges, i: int, j: int)
    requires
        0 <= i < j < (AttrRun { left: c }).plan().len(),
    ensures
        ({
            let first = (AttrRun { left: c }).plan()[i];
            let next = (AttrRun { left: c }).plan()[j];
            &&& next !is Truncate
            &&& next is Chmod ==> first is Truncate
            &&& next is Chown ==> first is Truncate || first is Chmod
            &&& next is SetTimes ==> first is Truncate || first is Chmod || first is Chown
            &&& first !is Stat
        }),
{
}

/// The attributes under which a file is shown are those of its backing file: its
/// length, its owner, its twelve permission bits and the low halves of the numbers
/// that are too wide. Its times are those of the backing file, or the epoch where
/// that has none; the time of the last change is that of the last modification. It
/// is a directory where the backing file is one, else a symlink where that is one,
/// and else a regular file.
pub proof fn law_file_is_shown_as_it_is(ino: INodeNo, meta: BackingMeta)
    ensures
        ({
            let shown = attr_of(ino, meta);
            let epoch = Timestamp { secs: 0, nanos: 0 };
            &&& shown.ino == ino
            &&& shown.size == meta.size
            &&& shown.blocks == meta.blocks
            &&& Some(shown.atime) == if meta.accessed is Some {
                meta.accessed
            } else {
                Some(epoch)
            }
            &&& Some(shown.mtime) == if meta.modified is Some {
                meta.modified
            } else {
                Some(epoch)
            }
            &&& shown.ctime == shown.mtime
            &&& Some(shown.crtime) == if meta.created is Some {
                meta.created
            } else {
                Some(epoch)
            }
            &&& shown.kind == FileType::Directory <==> meta.is_dir
            &&& shown.kind == FileType::Symlink <==> !meta.is_dir && meta.is_symlink
            &&& shown.uid == meta.uid
            &&& shown.gid == meta.gid
            &&& shown.flags == 0
            &&& shown.perm < 4096
            &&& (meta.mode - shown.perm) % 4096 == 0
            &&& (meta.nlink - shown.nlink) % 0x1_0000_0000 == 0
            &&& (meta.rdev - shown.rdev) % 0x1_0000_0000 == 0
            &&& (meta.blksize - shown.blksize) % 0x1_0000_0000 == 0
        }),
{
}

/// A time that is asked for is the one to set, whatever the time is; where the
/// present is asked for it is that.
pub proof fn law_time_to_set_is_the_one_asked(t: Timestamp, now: Timestamp)
    ensures
        time_asked(TimeOrNow::SpecificTime(t), now) == t,
        time_asked(TimeOrNow::Now, now) == now,
{
}

/// The ids that are handed over are those that are asked for; one that is not
/// asked for is the id with all bits set, which changes nothing.
pub proof fn law_id_to_set_is_the_one_asked(id: u32)
    ensures
        id_or_keep(Some(id)) == id,
        id_or_keep(None) == 0xffff_ffff,
{
}

} // verus!
