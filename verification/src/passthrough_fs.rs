//! The gated vault: what each request to the mounted filesystem may do to the
//! backing directory, and what it is answered.
//!
//! A request runs in stages. The first looks at the request alone and either
//! refuses it or says what is to be done to the backing directory; where the
//! calling program has to be authorized, what is to be done stays locked in a
//! [`Gated`] until it is. The last stage takes how it went and answers.

use crate::asking;
use crate::attributes;
use crate::attributes::{AttrChanges, AttrRun, BackingMeta, FileAttr, FileType};
use crate::digest;
use crate::errno::Errno;
use crate::handles;
use crate::handles::{HandleTable, HandlesView};
use crate::inode_table;
use crate::inode_table::{INodeNo, InodeTable, TableView, ROOT};
use crate::path;
use crate::path::UnixPath;
use crate::policy;
use crate::policy::{AuthPolicy, Decision, PromptResponse, Prompter, Verdict};
use crate::process_info::{ProcessIdentity, ProcessResolver};
use crate::text;
use crate::whitelist;
use crate::whitelist::{Whitelist, WhitelistEntry, WHITELIST_FILENAME};
use vstd::prelude::*;
use vstd::utf8::*;

verus! {

/// Whether a path is that of a whitelist file: its last name is the
/// whitelist's, in whichever directory it is.
pub open spec fn is_whitelist_file(b: Seq<u8>) -> bool {
    path::last_name(path::key_of(b)) == Some(encode_utf8(WHITELIST_FILENAME@))
}

/// True for any path whose final component is the vault's whitelist file,
/// regardless of which directory it's in. All access to such paths is refused,
/// even to a caller that has been granted access to the vault.
pub fn is_protected(path: &UnixPath) -> (r: bool)
    ensures
        r == is_whitelist_file(path@),
{
    match path.file_name() {
        Some(name) => path::same_bytes(name.as_slice(), WHITELIST_FILENAME.as_bytes()),
        None => false,
    }
}

/// Seconds since the epoch, or 0 where the clock is before it (`None`).
pub fn now_secs(since_epoch: Option<u64>) -> (r: u64)
    ensures
        r == match since_epoch {
            Some(secs) => secs,
            None => 0,
        },
{
    match since_epoch {
        Some(secs) => secs,
        None => 0,
    }
}

/// How a file is to be opened.
#[derive(Debug, Clone, Copy, PartialEq, Eq, Structural)]
pub enum AccessMode {
    ReadOnly,
    WriteOnly,
    ReadWrite,
}

/// Something to do to the backing directory.
#[derive(Debug)]
pub enum BackingOp {
    /// Read the attributes of `path` itself, not of what it links to.
    Stat { path: UnixPath },
    /// Read what the symlink `path` holds.
    ReadLink { path: UnixPath },
    /// List the directory `path`.
    ReadDir { path: UnixPath },
    /// Ask how much space the filesystem of `path` has.
    StatFs { path: UnixPath },
    /// Change the attributes of `path`.
    SetAttributes { path: UnixPath, run: AttrRun },
    /// Open `path`.
    Open { path: UnixPath, read: bool, write: bool },
    /// Create `path`, or empty it, and open it for reading and writing.
    CreateFile { path: UnixPath, mode: u32 },
    CreateDir { path: UnixPath },
    /// Make `path` a symlink that holds `content`.
    MakeSymlink { content: UnixPath, path: UnixPath },
    /// Make `path` a second name for `source`.
    HardLink { source: UnixPath, path: UnixPath },
    RemoveFile { path: UnixPath },
    RemoveDir { path: UnixPath },
    Rename { from: UnixPath, to: UnixPath },
}

/// What a [`BackingOp`] says, with paths by their bytes.
pub enum OpView {
    Stat { path: Seq<u8> },
    ReadLink { path: Seq<u8> },
    ReadDir { path: Seq<u8> },
    StatFs { path: Seq<u8> },
    SetAttributes { path: Seq<u8>, run: AttrRun },
    Open { path: Seq<u8>, read: bool, write: bool },
    CreateFile { path: Seq<u8>, mode: u32 },
    CreateDir { path: Seq<u8> },
    MakeSymlink { content: Seq<u8>, path: Seq<u8> },
    HardLink { source: Seq<u8>, path: Seq<u8> },
    RemoveFile { path: Seq<u8> },
    RemoveDir { path: Seq<u8> },
    Rename { from: Seq<u8>, to: Seq<u8> },
}

impl View for BackingOp {
    type V = OpView;

    open spec fn view(&self) -> OpView {
        match *self {
            BackingOp::Stat { path } => OpView::Stat { path: path@ },
            BackingOp::ReadLink { path } => OpView::ReadLink { path: path@ },
            BackingOp::ReadDir { path } => OpView::ReadDir { path: path@ },
            BackingOp::StatFs { path } => OpView::StatFs { path: path@ },
            BackingOp::SetAttributes { path, run } => OpView::SetAttributes { path: path@, run },
            BackingOp::Open { path, read, write } => OpView::Open { path: path@, read, write },
            BackingOp::CreateFile { path, mode } => OpView::CreateFile { path: path@, mode },
            BackingOp::CreateDir { path } => OpView::CreateDir { path: path@ },
            BackingOp::MakeSymlink { content, path } => OpView::MakeSymlink {
                content: content@,
                path: path@,
            },
            BackingOp::HardLink { source, path } => OpView::HardLink {
                source: source@,
                path: path@,
            },
            BackingOp::RemoveFile { path } => OpView::RemoveFile { path: path@ },
            BackingOp::RemoveDir { path } => OpView::RemoveDir { path: path@ },
            BackingOp::Rename { from, to } => OpView::Rename { from: from@, to: to@ },
        }
    }
}

/// The paths that an operation reads or changes.
pub open spec fn touched(op: OpView) -> Seq<Seq<u8>> {
    match op {
        OpView::Stat { path } => seq![path],
        OpView::ReadLink { path } => seq![path],
        OpView::ReadDir { path } => seq![path],
        OpView::StatFs { path } => seq![path],
        OpView::SetAttributes { path, run } => seq![path],
        OpView::Open { path, read, write } => seq![path],
        OpView::CreateFile { path, mode } => seq![path],
        OpView::CreateDir { path } => seq![path],
        OpView::MakeSymlink { content, path } => seq![path],
        OpView::HardLink { source, path } => seq![source, path],
        OpView::RemoveFile { path } => seq![path],
        OpView::RemoveDir { path } => seq![path],
        OpView::Rename { from, to } => seq![from, to],
    }
}

/// Whether an operation leaves every whitelist file alone.
pub open spec fn spares_the_whitelist(op: OpView) -> bool {
    forall|i: int| 0 <= i < touched(op).len() ==> !is_whitelist_file(#[trigger] touched(op)[i])
}

/// Something to do to the backing directory once the calling program is
/// authorized for `target`.
#[derive(Debug)]
pub struct Gated {
    target: UnixPath,
    op: BackingOp,
}

impl Gated {
    /// The path that the program has to be authorized for.
    pub closed spec fn subject(&self) -> UnixPath {
        self.target
    }

    /// The bytes of the path that the program has to be authorized for.
    pub open spec fn asks(&self) -> Seq<u8> {
        self.subject()@
    }

    /// What is to be done.
    pub closed spec fn holds(&self) -> OpView {
        self.op@
    }

    /// The path that the program has to be authorized for.
    pub fn target(&self) -> (r: &UnixPath)
        ensures
            *r == self.subject(),
    {
        &self.target
    }

    /// Hands out what is to be done, if that is the decision.
    fn authorize(self, decision: Decision) -> (r: Result<BackingOp, Errno>)
        ensures
            is_handed_out(r, decision, self.holds()),
    {
        match decision {
            Decision::Allow => Ok(self.op),
            Decision::Deny => Err(Errno::EACCES),
        }
    }
}

/// What a decision about a gated operation comes to: the operation, or that
/// access is denied.
pub open spec fn is_handed_out(
    r: Result<BackingOp, Errno>,
    decision: Decision,
    op: OpView,
) -> bool {
    match decision {
        Decision::Allow => r matches Ok(handed) && handed@ == op,
        Decision::Deny => r == Err::<BackingOp, Errno>(Errno::EACCES),
    }
}

/// A gated operation about which the user is being asked.
#[derive(Debug)]
pub struct Pending {
    gated: Gated,
    identity: ProcessIdentity,
}

impl Pending {
    /// The operation that waits for an answer.
    pub closed spec fn waits(&self) -> Gated {
        self.gated
    }

    /// The program that the answer is about.
    pub closed spec fn about(&self) -> ProcessIdentity {
        self.identity
    }

    /// The path that the user is asked about.
    pub fn target(&self) -> (r: &UnixPath)
        ensures
            *r == self.waits().subject(),
    {
        self.gated.target()
    }

    /// The program that the user is asked about.
    pub fn identity(&self) -> (r: &ProcessIdentity)
        ensures
            *r == self.about(),
    {
        &self.identity
    }
}

/// Whether a gated operation can be done.
#[derive(Debug)]
pub enum Admission {
    /// It is decided: what is to be done, or that access is denied.
    Decided(Result<BackingOp, Errno>),
    /// The user has to be asked.
    Open(Pending),
}

/// What comes of a gated operation about whose program `known` is known.
pub open spec fn is_admitted(
    r: Admission,
    gated: Gated,
    identity: ProcessIdentity,
    known: Option<Decision>,
) -> bool {
    match known {
        Some(d) => r is Decided && is_handed_out(r->Decided_0, d, gated.holds()),
        None => r is Open && r->Open_0.waits() == gated && r->Open_0.about() == identity,
    }
}

/// No inode leads to a whitelist file.
pub open spec fn sealed(t: TableView) -> bool {
    forall|i: u64| #[trigger] t.paths.contains_key(i) ==> !is_whitelist_file(t.paths[i])
}

/// The path of `name` in the directory with the inode `parent`.
pub open spec fn child(t: TableView, parent: INodeNo, name: Seq<u8>) -> Seq<u8> {
    path::joined(t.paths[parent], name)
}

/// Why a request about `name` in `parent` is refused outright, before the
/// program is looked at.
pub open spec fn entry_refusal(t: TableView, parent: INodeNo, name: Seq<u8>) -> Option<Errno> {
    if !t.paths.contains_key(parent) {
        Some(Errno::ENOENT)
    } else if is_whitelist_file(child(t, parent, name)) {
        Some(Errno::EACCES)
    } else {
        None
    }
}

/// Why a request about the file with the inode `ino` is refused outright.
pub open spec fn inode_refusal(t: TableView, ino: INodeNo) -> Option<Errno> {
    if !t.paths.contains_key(ino) {
        Some(Errno::ENOENT)
    } else if is_whitelist_file(t.paths[ino]) {
        Some(Errno::EACCES)
    } else {
        None
    }
}

/// What a gated request comes to: it is refused, or `op` is to be done once
/// the program is authorized for `asks`.
pub open spec fn gate_result(
    r: Result<Gated, Errno>,
    refusal: Option<Errno>,
    asks: Seq<u8>,
    op: OpView,
) -> bool {
    match r {
        Err(e) => refusal == Some(e),
        Ok(g) => refusal is None && g.asks() == asks && g.holds() == op,
    }
}

/// Why a hard link is refused outright.
pub open spec fn link_refusal(
    t: TableView,
    ino: INodeNo,
    newparent: INodeNo,
    newname: Seq<u8>,
) -> Option<Errno> {
    if !t.paths.contains_key(ino) || !t.paths.contains_key(newparent) {
        Some(Errno::ENOENT)
    } else if is_whitelist_file(t.paths[ino]) || is_whitelist_file(child(t, newparent, newname)) {
        Some(Errno::EACCES)
    } else {
        None
    }
}

/// Why a rename is refused outright.
pub open spec fn rename_refusal(
    t: TableView,
    parent: INodeNo,
    name: Seq<u8>,
    newparent: INodeNo,
    newname: Seq<u8>,
) -> Option<Errno> {
    if !t.paths.contains_key(parent) || !t.paths.contains_key(newparent) {
        Some(Errno::ENOENT)
    } else if is_whitelist_file(child(t, parent, name)) || is_whitelist_file(
        child(t, newparent, newname),
    ) {
        Some(Errno::EACCES)
    } else {
        None
    }
}

/// The path whose filesystem is asked for its space.
pub open spec fn space_path(t: TableView, ino: INodeNo) -> Seq<u8> {
    if t.paths.contains_key(ino) {
        t.paths[ino]
    } else if t.paths.contains_key(ROOT) {
        t.paths[ROOT]
    } else {
        seq![path::SLASH]
    }
}

/// Whether a path holds a zero byte, which the system takes for its end.
pub open spec fn has_nul(b: Seq<u8>) -> bool {
    exists|i: int| 0 <= i < b.len() && #[trigger] b[i] == 0
}

/// What a directory was found to hold under a name.
#[derive(Debug, Clone, Copy, PartialEq, Eq, Structural)]
pub enum EntryKind {
    Directory,
    Symlink,
    /// Anything else, and what could not be told.
    Other,
}

/// A name that was found in a directory.
#[derive(Debug)]
pub struct FoundEntry {
    pub name: Vec<u8>,
    pub kind: EntryKind,
}

pub struct FoundView {
    pub name: Seq<u8>,
    pub kind: EntryKind,
}

impl View for FoundEntry {
    type V = FoundView;

    open spec fn view(&self) -> FoundView {
        FoundView { name: self.name@, kind: self.kind }
    }
}

/// What was found in a directory.
pub open spec fn found_views(s: Seq<FoundEntry>) -> Seq<FoundView> {
    Seq::new(s.len(), |i: int| s[i]@)
}

/// What is shown of it: all but the whitelist file.
pub open spec fn shown(s: Seq<FoundView>) -> Seq<FoundView>
    decreases s.len(),
{
    if s.len() == 0 {
        Seq::empty()
    } else if s.last().name == encode_utf8(WHITELIST_FILENAME@) {
        shown(s.drop_last())
    } else {
        shown(s.drop_last()).push(s.last())
    }
}

/// As what a found name is listed.
pub open spec fn listed_as(kind: EntryKind) -> FileType {
    match kind {
        EntryKind::Directory => FileType::Directory,
        EntryKind::Symlink => FileType::Symlink,
        EntryKind::Other => FileType::RegularFile,
    }
}

fn listed_kind(kind: EntryKind) -> (r: FileType)
    ensures
        r == listed_as(kind),
{
    match kind {
        EntryKind::Directory => FileType::Directory,
        EntryKind::Symlink => FileType::Symlink,
        EntryKind::Other => FileType::RegularFile,
    }
}

/// A line of a directory listing. `offset` is where the next line starts.
#[derive(Debug)]
pub struct DirLine {
    pub ino: INodeNo,
    pub offset: u64,
    pub kind: FileType,
    pub name: Vec<u8>,
}

pub struct LineView {
    pub ino: INodeNo,
    pub offset: int,
    pub kind: FileType,
    pub name: Seq<u8>,
}

impl View for DirLine {
    type V = LineView;

    open spec fn view(&self) -> LineView {
        LineView { ino: self.ino, offset: self.offset as int, kind: self.kind, name: self.name@ }
    }
}

pub open spec fn line_views(s: Seq<DirLine>) -> Seq<LineView> {
    Seq::new(s.len(), |i: int| s[i]@)
}

/// The table after every name that was found in `dir` got an inode.
pub open spec fn enter_all(t: TableView, dir: Seq<u8>, s: Seq<FoundView>) -> TableView
    decreases s.len(),
{
    if s.len() == 0 {
        t
    } else {
        inode_table::entered(
            enter_all(t, dir, s.drop_last()),
            path::joined(dir, s.last().name),
        )
    }
}

/// What a directory lists: an inode, a kind and a name.
pub struct Listed {
    pub ino: INodeNo,
    pub kind: FileType,
    pub name: Seq<u8>,
}

/// How `e` is listed, when `s` was listed before it.
pub open spec fn child_line(t: TableView, dir: Seq<u8>, s: Seq<FoundView>, e: FoundView) -> Listed {
    Listed {
        ino: inode_table::ino_of(enter_all(t, dir, s), path::joined(dir, e.name)),
        kind: listed_as(e.kind),
        name: e.name,
    }
}

/// All that the directory `dir`, with the inode `ino`, lists: itself twice, as
/// `.` and `..`, and then what is in it.
pub open spec fn listing(t: TableView, ino: INodeNo, dir: Seq<u8>, s: Seq<FoundView>) -> Seq<Listed>
    decreases s.len(),
{
    if s.len() == 0 {
        seq![
            Listed { ino, kind: FileType::Directory, name: seq![path::DOT] },
            Listed { ino, kind: FileType::Directory, name: seq![path::DOT, path::DOT] },
        ]
    } else {
        listing(t, ino, dir, s.drop_last()).push(child_line(t, dir, s.drop_last(), s.last()))
    }
}

/// A listing from the line `from` on, each line with the number of the next.
pub open spec fn page(all: Seq<Listed>, from: int) -> Seq<LineView> {
    Seq::new(
        if from < all.len() {
            (all.len() - from) as nat
        } else {
            0
        },
        |i: int|
            LineView {
                ino: all[from + i].ino,
                offset: from + i + 1,
                kind: all[from + i].kind,
                name: all[from + i].name,
            },
    )
}

fn dot_line(ino: INodeNo, dots: u64) -> (r: DirLine)
    requires
        1 <= dots <= 2,
    ensures
        r@ == (LineView {
            ino,
            offset: dots as int,
            kind: FileType::Directory,
            name: if dots == 1 {
                seq![path::DOT]
            } else {
                seq![path::DOT, path::DOT]
            },
        }),
{
    let mut name: Vec<u8> = Vec::new();
    name.push(path::DOT);
    if dots == 2 {
        name.push(path::DOT);
    }
    assert(name@ =~= if dots == 1 {
        seq![path::DOT]
    } else {
        seq![path::DOT, path::DOT]
    });
    DirLine { ino, offset: dots, kind: FileType::Directory, name }
}

/// What a filesystem holds.
pub struct FsView<P: Prompter, R: ProcessResolver, H> {
    pub table: TableView,
    pub files: HandlesView<H>,
    pub last_activity: u64,
    pub policy: AuthPolicy<P>,
    pub resolver: R,
}

/// A read-only view of vault activity for the control socket: whether anything
/// uses the vault.
#[derive(Debug, Clone, Copy, PartialEq, Eq, Structural)]
pub struct ActivityMonitor {
    pub last_activity: u64,
    pub handles: usize,
}

impl ActivityMonitor {
    /// Unix-epoch seconds of the most recent `open`/`create`/`read`/`write`
    /// through the mount, or of the mount itself.
    pub fn last_activity_secs(&self) -> (r: u64)
        ensures
            r == self.last_activity,
    {
        self.last_activity
    }

    /// How many file handles are open in the vault.
    pub fn open_handles(&self) -> (r: usize)
        ensures
            r == self.handles,
    {
        self.handles
    }
}

/// A filesystem that forwards every operation to the backing directory, except
/// that those that open or change something are gated behind an [`AuthPolicy`]
/// decision keyed on the calling process's binary. `H` is an open file.
pub struct PassthroughFs<P: Prompter, R: ProcessResolver, H> {
    inodes: InodeTable,
    handles: HandleTable<H>,
    last_activity: u64,
    auth: AuthPolicy<P>,
    resolver: R,
}

impl<P: Prompter, R: ProcessResolver, H> View for PassthroughFs<P, R, H> {
    type V = FsView<P, R, H>;

    closed spec fn view(&self) -> FsView<P, R, H> {
        FsView {
            table: self.inodes@,
            files: self.handles@,
            last_activity: self.last_activity,
            policy: self.auth,
            resolver: self.resolver,
        }
    }
}

impl<P: Prompter, R: ProcessResolver, H> PassthroughFs<P, R, H> {
    /// A filesystem over `backing_root`, of whose whitelist file `stored` was
    /// read, mounted at the time `now`.
    pub fn new(
        backing_root: UnixPath,
        prompter: P,
        resolver: R,
        stored: Option<Vec<WhitelistEntry>>,
        now: u64,
    ) -> (r: Self)
        ensures
            r@.table == inode_table::fresh(backing_root@),
            r@.files == (HandlesView { open: Map::<u64, H>::empty(), next: 1 }),
            r@.last_activity == now,
            r@.policy.asker() == prompter,
            r@.policy.asked() == Seq::<asking::Question>::empty(),
            r@.policy.cached() == Map::<path::PathKey, Decision>::empty(),
            r@.policy.approvals()@ == match stored {
                Some(entries) => whitelist::entry_views(entries@),
                None => Seq::<whitelist::EntryView>::empty(),
            },
            r@.policy.approvals().location() == path::joined(
                backing_root@,
                encode_utf8(WHITELIST_FILENAME@),
            ),
            r@.resolver == resolver,
            inode_table::consistent(r@.table),
            sealed(r@.table) == !is_whitelist_file(backing_root@),
    {
        let whitelist = Whitelist::load(&backing_root, stored);
        let r = PassthroughFs {
            inodes: InodeTable::new(backing_root),
            handles: HandleTable::new(),
            last_activity: now,
            auth: AuthPolicy::new(prompter, whitelist),
            resolver,
        };
        assert(r@.table.paths.contains_key(ROOT));
        r
    }

    /// A read-only activity view for the control socket.
    pub fn activity_monitor(&self) -> (r: ActivityMonitor)
        ensures
            r.last_activity == self@.last_activity,
            r.handles == self@.files.open.len(),
    {
        ActivityMonitor { last_activity: self.last_activity, handles: self.handles.count() }
    }

    /// Records that the vault was used at the time `now`.
    pub fn mark_activity(&mut self, now: u64)
        ensures
            final(self)@ == (FsView { last_activity: now, ..old(self)@ }),
    {
        self.last_activity = now;
    }

    /// The policy that decides about programs.
    pub fn auth(&self) -> (r: &AuthPolicy<P>)
        ensures
            *r == self@.policy,
    {
        &self.auth
    }

    /// Who tells the programs behind the processes.
    pub fn resolver(&self) -> (r: &R)
        ensures
            *r == self@.resolver,
    {
        &self.resolver
    }

    /// The path of an inode.
    pub fn path_of(&self, ino: INodeNo) -> (r: Option<UnixPath>)
        ensures
            match r {
                Some(p) => self@.table.paths.contains_key(ino) && p@ == self@.table.paths[ino],
                None => !self@.table.paths.contains_key(ino),
            },
    {
        self.inodes.path(ino)
    }

    /// How many new paths can still be given an inode.
    pub fn room(&self) -> (r: u64)
        ensures
            r == u64::MAX - self@.table.next,
    {
        self.inodes.room()
    }

    /// A handle to this mount's whitelist, for the control socket to change
    /// from outside the request path while the mount is live.
    pub fn whitelist_handle(&mut self) -> (r: &mut Whitelist)
        ensures
            *r == old(self)@.policy.approvals(),
            final(self)@.policy.approvals() == *final(r),
            final(self)@.policy.cached() == old(self)@.policy.cached(),
            final(self)@.policy.asker() == old(self)@.policy.asker(),
            final(self)@.policy.asked() == old(self)@.policy.asked(),
            final(self)@ == (FsView { policy: final(self)@.policy, ..old(self)@ }),
    {
        self.auth.whitelist_handle()
    }

    /// What is decided about a program without asking the user. A process that
    /// cannot be resolved to a program is denied. `contents` is what reading
    /// the program's binary gave.
    pub fn known(&self, identity: Option<&ProcessIdentity>, contents: Option<&[u8]>) -> (r: Option<
        Decision,
    >)
        ensures
            r == match identity {
                Some(identity) => policy::standing(
                    self@.policy.approvals()@,
                    self@.policy.cached(),
                    identity.path.key(),
                    whitelist::read_view(contents),
                ),
                None => Some(Decision::Deny),
            },
    {
        match identity {
            Some(identity) => self.auth.known(identity, contents),
            None => Some(Decision::Deny),
        }
    }

    /// Asks the policy whether a program may touch `target`. Fails closed
    /// (denies) if the process could not be resolved to a program at all. The
    /// user is asked only where nothing is decided yet.
    pub fn authorize(
        &mut self,
        identity: Option<&ProcessIdentity>,
        target: &UnixPath,
        contents: Option<&[u8]>,
        fresh: Option<&[u8]>,
        now: u64,
    ) -> (r: Verdict)
        requires
            identity is Some && policy::is_open(
                old(self)@.policy.approvals()@,
                old(self)@.policy.cached(),
                identity->0.path.key(),
                whitelist::read_view(contents),
            ) ==> old(self)@.policy.asker().may_ask(*identity->0, *target),
        ensures
            final(self)@ == (FsView { policy: final(self)@.policy, ..old(self)@ }),
            identity is None ==> {
                &&& r == (Verdict { decision: Decision::Deny, persist: false })
                &&& final(self)@ == old(self)@
            },
            identity is Some ==> policy::decided(
                old(self)@.policy,
                *identity->0,
                *target,
                whitelist::read_view(contents),
                whitelist::read_view(fresh),
                now,
                r,
                final(self)@.policy,
            ),
    {
        match identity {
            Some(identity) => self.auth.decide(identity, target, contents, fresh, now),
            None => Verdict { decision: Decision::Deny, persist: false },
        }
    }

    /// Hands out what `gated` holds, if the policy lets the program touch what
    /// it is gated on, and says whether the whitelist is to be persisted. The
    /// user is asked only where nothing is decided yet.
    pub fn permitted(
        &mut self,
        gated: Gated,
        identity: Option<&ProcessIdentity>,
        contents: Option<&[u8]>,
        fresh: Option<&[u8]>,
        now: u64,
    ) -> (r: (Result<BackingOp, Errno>, bool))
        requires
            identity is Some && policy::is_open(
                old(self)@.policy.approvals()@,
                old(self)@.policy.cached(),
                identity->0.path.key(),
                whitelist::read_view(contents),
            ) ==> old(self)@.policy.asker().may_ask(*identity->0, gated.subject()),
        ensures
            final(self)@ == (FsView { policy: final(self)@.policy, ..old(self)@ }),
            match identity {
                None => {
                    &&& r == (Err::<BackingOp, Errno>(Errno::EACCES), false)
                    &&& final(self)@ == old(self)@
                },
                Some(id) => exists|v: Verdict|
                    {
                        &&& #[trigger] policy::decided(
                            old(self)@.policy,
                            *id,
                            gated.subject(),
                            whitelist::read_view(contents),
                            whitelist::read_view(fresh),
                            now,
                            v,
                            final(self)@.policy,
                        )
                        &&& is_handed_out(r.0, v.decision, gated.holds())
                        &&& r.1 == v.persist
                    },
            },
    {
        let verdict = self.authorize(identity, gated.target(), contents, fresh, now);
        (gated.authorize(verdict.decision), verdict.persist)
    }

    /// Hands out what `gated` holds, or denies it, where that is decided without
    /// asking; otherwise it is pending, and the filesystem can serve others while
    /// the user is asked. `sha256` is the digest of what reading the program's
    /// binary gave.
    pub fn let_in_by_digest(
        &self,
        gated: Gated,
        identity: Option<ProcessIdentity>,
        sha256: Option<&str>,
    ) -> (r: Admission)
        ensures
            match identity {
                None => r == Admission::Decided(Err(Errno::EACCES)),
                Some(id) => is_admitted(
                    r,
                    gated,
                    id,
                    policy::standing_by_digest(
                        self@.policy.approvals()@,
                        self@.policy.cached(),
                        id.path.key(),
                        text::text_view(sha256),
                    ),
                ),
            },
    {
        match identity {
            None => Admission::Decided(Err(Errno::EACCES)),
            Some(identity) => match self.auth.known_by_digest(&identity, sha256) {
                Some(decision) => Admission::Decided(gated.authorize(decision)),
                None => Admission::Open(Pending { gated, identity }),
            },
        }
    }

    /// Hands out what `gated` holds, or denies it, where that is decided without
    /// asking. `contents` is what reading the program's binary gave.
    pub fn let_in(
        &self,
        gated: Gated,
        identity: Option<ProcessIdentity>,
        contents: Option<&[u8]>,
    ) -> (r: Admission)
        ensures
            match identity {
                None => r == Admission::Decided(Err(Errno::EACCES)),
                Some(id) => is_admitted(
                    r,
                    gated,
                    id,
                    policy::standing(
                        self@.policy.approvals()@,
                        self@.policy.cached(),
                        id.path.key(),
                        whitelist::read_view(contents),
                    ),
                ),
            },
    {
        match contents {
            Some(c) => self.let_in_by_digest(
                gated,
                identity,
                Some(digest::hex_digest(c).as_str()),
            ),
            None => self.let_in_by_digest(gated, identity, None),
        }
    }

    /// Settles the user's answer about a pending operation: hands it out or
    /// denies it, and says whether the whitelist is to be persisted. `sha256` is
    /// the digest of what reading the program's binary gave after the answer.
    pub fn answered_by_digest(
        &mut self,
        pending: Pending,
        response: PromptResponse,
        sha256: Option<String>,
        now: u64,
    ) -> (r: (Result<BackingOp, Errno>, bool))
        ensures
            is_handed_out(r.0, policy::answer_decision(response), pending.waits().holds()),
            policy::settled(
                old(self)@.policy,
                pending.about(),
                response,
                text::string_view(sha256),
                now,
                (Verdict { decision: policy::answer_decision(response), persist: r.1 }),
                final(self)@.policy,
            ),
            final(self)@ == (FsView { policy: final(self)@.policy, ..old(self)@ }),
            final(self)@.policy.asked() == old(self)@.policy.asked(),
    {
        let verdict = self.auth.settle_by_digest(&pending.identity, response, sha256, now);
        (pending.gated.authorize(verdict.decision), verdict.persist)
    }

    /// Settles the user's answer about a pending operation. `fresh` is what
    /// reading the program's binary gave after the answer.
    pub fn answered(
        &mut self,
        pending: Pending,
        response: PromptResponse,
        fresh: Option<&[u8]>,
        now: u64,
    ) -> (r: (Result<BackingOp, Errno>, bool))
        ensures
            is_handed_out(r.0, policy::answer_decision(response), pending.waits().holds()),
            policy::settled(
                old(self)@.policy,
                pending.about(),
                response,
                whitelist::digest_of(whitelist::read_view(fresh)),
                now,
                (Verdict { decision: policy::answer_decision(response), persist: r.1 }),
                final(self)@.policy,
            ),
            final(self)@ == (FsView { policy: final(self)@.policy, ..old(self)@ }),
            final(self)@.policy.asked() == old(self)@.policy.asked(),
    {
        let sha256 = match fresh {
            Some(c) => Some(digest::hex_digest(c)),
            None => None,
        };
        self.answered_by_digest(pending, response, sha256, now)
    }

    fn entry_target(&self, parent: INodeNo, name: &[u8]) -> (r: Result<UnixPath, Errno>)
        ensures
            match r {
                Err(e) => entry_refusal(self@.table, parent, name@) == Some(e),
                Ok(p) => entry_refusal(self@.table, parent, name@) is None && p@ == child(
                    self@.table,
                    parent,
                    name@,
                ),
            },
    {
        let dir = match self.inodes.path(parent) {
            Some(p) => p,
            None => {
                return Err(Errno::ENOENT);
            },
        };
        let target = dir.join(name);
        if is_protected(&target) {
            return Err(Errno::EACCES);
        }
        Ok(target)
    }

    fn inode_target(&self, ino: INodeNo) -> (r: Result<UnixPath, Errno>)
        ensures
            match r {
                Err(e) => inode_refusal(self@.table, ino) == Some(e),
                Ok(p) => inode_refusal(self@.table, ino) is None && p@ == self@.table.paths[ino],
            },
    {
        let target = match self.inodes.path(ino) {
            Some(p) => p,
            None => {
                return Err(Errno::ENOENT);
            },
        };
        if is_protected(&target) {
            return Err(Errno::EACCES);
        }
        Ok(target)
    }

    /// A lookup of `name` in the directory `parent`. The whitelist file is not
    /// found, as if it were not there.
    pub fn lookup(&self, parent: INodeNo, name: &[u8]) -> (r: Result<BackingOp, Errno>)
        ensures
            match r {
                Err(e) => e == Errno::ENOENT && entry_refusal(
                    self@.table,
                    parent,
                    name@,
                ) is Some,
                Ok(op) => {
                    &&& entry_refusal(self@.table, parent, name@) is None
                    &&& op@ == (OpView::Stat { path: child(self@.table, parent, name@) })
                    &&& spares_the_whitelist(op@)
                },
            },
    {
        match self.entry_target(parent, name) {
            Ok(path) => Ok(BackingOp::Stat { path }),
            Err(_) => Err(Errno::ENOENT),
        }
    }

    /// The answer to a lookup of `target`, from what its attributes were. A
    /// file that is found gets an inode; any failure means that there is none.
    pub fn lookup_done(&mut self, target: UnixPath, meta: Result<BackingMeta, Errno>) -> (r: Result<
        FileAttr,
        Errno,
    >)
        requires
            inode_table::has_room(old(self)@.table, target@),
        ensures
            match meta {
                Ok(m) => {
                    &&& r == Ok::<FileAttr, Errno>(
                        attributes::attr_of(inode_table::ino_of(old(self)@.table, target@), m),
                    )
                    &&& final(self)@ == (FsView {
                        table: inode_table::entered(old(self)@.table, target@),
                        ..old(self)@
                    })
                },
                Err(_) => r == Err::<FileAttr, Errno>(Errno::ENOENT) && final(self)@
                    == old(self)@,
            },
    {
        match self.entry_done(target, meta) {
            Ok(attr) => Ok(attr),
            Err(_) => Err(Errno::ENOENT),
        }
    }

    /// The answer to a request that made the new name `target` (a directory, a
    /// symlink or a hard link), from what its attributes were. It gets an
    /// inode; a failure is answered as it came.
    pub fn entry_done(&mut self, target: UnixPath, meta: Result<BackingMeta, Errno>) -> (r: Result<
        FileAttr,
        Errno,
    >)
        requires
            inode_table::has_room(old(self)@.table, target@),
        ensures
            match meta {
                Ok(m) => {
                    &&& r == Ok::<FileAttr, Errno>(
                        attributes::attr_of(inode_table::ino_of(old(self)@.table, target@), m),
                    )
                    &&& final(self)@ == (FsView {
                        table: inode_table::entered(old(self)@.table, target@),
                        ..old(self)@
                    })
                },
                Err(e) => r == Err::<FileAttr, Errno>(e) && final(self)@ == old(self)@,
            },
    {
        match meta {
            Ok(m) => {
                let ino = self.inodes.ino_for(target);
                Ok(attributes::attr_from_metadata(ino, &m))
            },
            Err(e) => Err(e),
        }
    }

    /// A request for the attributes of a file.
    pub fn getattr(&self, ino: INodeNo) -> (r: Result<BackingOp, Errno>)
        ensures
            match r {
                Err(e) => e == Errno::ENOENT && !self@.table.paths.contains_key(ino),
                Ok(op) => {
                    &&& self@.table.paths.contains_key(ino)
                    &&& op@ == (OpView::Stat { path: self@.table.paths[ino] })
                    &&& sealed(self@.table) ==> spares_the_whitelist(op@)
                },
            },
    {
        match self.inodes.path(ino) {
            Some(path) => Ok(BackingOp::Stat { path }),
            None => Err(Errno::ENOENT),
        }
    }

    /// The answer to a request for the attributes of a file: any failure means
    /// that it is not there.
    pub fn getattr_done(&self, ino: INodeNo, meta: Result<BackingMeta, Errno>) -> (r: Result<
        FileAttr,
        Errno,
    >)
        ensures
            r == match meta {
                Ok(m) => Ok::<FileAttr, Errno>(attributes::attr_of(ino, m)),
                Err(_) => Err::<FileAttr, Errno>(Errno::ENOENT),
            },
    {
        match meta {
            Ok(m) => Ok(attributes::attr_from_metadata(ino, &m)),
            Err(_) => Err(Errno::ENOENT),
        }
    }

    /// A request for what a symlink holds. It reveals no more than that, so it
    /// is not gated.
    pub fn readlink(&self, ino: INodeNo) -> (r: Result<BackingOp, Errno>)
        ensures
            match r {
                Err(e) => e == Errno::ENOENT && inode_refusal(self@.table, ino) is Some,
                Ok(op) => {
                    &&& inode_refusal(self@.table, ino) is None
                    &&& op@ == (OpView::ReadLink { path: self@.table.paths[ino] })
                    &&& spares_the_whitelist(op@)
                },
            },
    {
        match self.inode_target(ino) {
            Ok(path) => Ok(BackingOp::ReadLink { path }),
            Err(_) => Err(Errno::ENOENT),
        }
    }

    /// A request to change attributes. It is gated like an open: otherwise a
    /// file could be truncated or touched by a program that never opened it.
    pub fn setattr(&self, ino: INodeNo, changes: AttrChanges) -> (r: Result<Gated, Errno>)
        ensures
            gate_result(
                r,
                inode_refusal(self@.table, ino),
                self@.table.paths[ino],
                OpView::SetAttributes {
                    path: self@.table.paths[ino],
                    run: AttrRun { left: changes },
                },
            ),
            r is Ok ==> spares_the_whitelist(r->Ok_0.holds()),
    {
        let path = self.inode_target(ino)?;
        let target = path.clone();
        Ok(Gated { target, op: BackingOp::SetAttributes { path, run: AttrRun::new(changes) } })
    }

    /// The answer to a change of attributes, from what they are after it.
    pub fn setattr_done(&self, ino: INodeNo, meta: Result<BackingMeta, Errno>) -> (r: Result<
        FileAttr,
        Errno,
    >)
        ensures
            r == match meta {
                Ok(m) => Ok::<FileAttr, Errno>(attributes::attr_of(ino, m)),
                Err(e) => Err::<FileAttr, Errno>(e),
            },
    {
        match meta {
            Ok(m) => Ok(attributes::attr_from_metadata(ino, &m)),
            Err(e) => Err(e),
        }
    }

    /// A request for the space that the vault has. A file that is not known
    /// stands for the root.
    pub fn statfs(&self, ino: INodeNo) -> (r: Result<BackingOp, Errno>)
        ensures
            match r {
                Err(e) => e == Errno::EINVAL && has_nul(space_path(self@.table, ino)),
                Ok(op) => {
                    &&& !has_nul(space_path(self@.table, ino))
                    &&& op@ == (OpView::StatFs { path: space_path(self@.table, ino) })
                    &&& sealed(self@.table) ==> spares_the_whitelist(op@)
                },
            },
    {
        let path = match self.inodes.path(ino) {
            Some(path) => path,
            None => match self.inodes.path(ROOT) {
                Some(path) => path,
                None => {
                    let mut bytes: Vec<u8> = Vec::new();
                    bytes.push(path::SLASH);
                    assert(bytes@ =~= seq![path::SLASH]);
                    proof {
                        path::lemma_root_has_no_name();
                    }
                    UnixPath { bytes }
                },
            },
        };
        let mut i: usize = 0;
        while i < path.bytes.len()
            invariant
                i <= path.bytes@.len(),
                path@ == space_path(self@.table, ino),
                forall|k: int| 0 <= k < i ==> #[trigger] path.bytes@[k] != 0,
            decreases path.bytes@.len() - i,
        {
            if path.bytes[i] == 0 {
                assert(path@[i as int] == 0);
                return Err(Errno::EINVAL);
            }
            i += 1;
        }
        Ok(BackingOp::StatFs { path })
    }

    /// A request for the names in a directory.
    pub fn readdir(&self, ino: INodeNo) -> (r: Result<BackingOp, Errno>)
        ensures
            match r {
                Err(e) => e == Errno::ENOENT && !self@.table.paths.contains_key(ino),
                Ok(op) => {
                    &&& self@.table.paths.contains_key(ino)
                    &&& op@ == (OpView::ReadDir { path: self@.table.paths[ino] })
                    &&& sealed(self@.table) ==> spares_the_whitelist(op@)
                },
            },
    {
        match self.inodes.path(ino) {
            Some(path) => Ok(BackingOp::ReadDir { path }),
            None => Err(Errno::ENOENT),
        }
    }

    /// The lines with which a request for the names in the directory `dir`,
    /// with the inode `ino`, is answered, from what was `found` in it. The
    /// whitelist file is left out; every other name gets an inode. The answer
    /// starts at the line `offset`.
    pub fn readdir_done(
        &mut self,
        ino: INodeNo,
        dir: &UnixPath,
        found: Vec<FoundEntry>,
        offset: u64,
    ) -> (r: Vec<DirLine>)
        requires
            old(self)@.table.next + found@.len() <= u64::MAX,
            2 + found@.len() <= u64::MAX,
        ensures
            line_views(r@) == page(
                listing(old(self)@.table, ino, dir@, shown(found_views(found@))),
                offset as int,
            ),
            final(self)@ == (FsView {
                table: enter_all(old(self)@.table, dir@, shown(found_views(found@))),
                ..old(self)@
            }),
    {
        let ghost before = self@;
        let ghost all = found_views(found@);
        let ghost n = found@.len();
        let ghost items = found@;
        let hidden = WHITELIST_FILENAME.as_bytes();
        let mut lines: Vec<DirLine> = Vec::new();
        lines.push(dot_line(ino, 1));
        lines.push(dot_line(ino, 2));
        let mut count: u64 = 2;
        proof {
            assert(all.take(0) =~= Seq::<FoundView>::empty());
            assert(shown(all.take(0)) =~= Seq::<FoundView>::empty());
            let whole = listing(before.table, ino, dir@, shown(all.take(0)));
            assert(line_views(lines@) =~= page(whole, 0));
        }
        for e in it: found
            invariant
                it.seq() == items,
                all == found_views(items),
                n == items.len(),
                before.table.next + n <= u64::MAX,
                2 + n <= u64::MAX,
                hidden@ == encode_utf8(WHITELIST_FILENAME@),
                self@ == (FsView {
                    table: enter_all(before.table, dir@, shown(all.take(it.index()))),
                    ..before
                }),
                self@.table.next <= before.table.next + it.index(),
                count == lines@.len(),
                count <= 2 + it.index(),
                line_views(lines@) == page(
                    listing(before.table, ino, dir@, shown(all.take(it.index()))),
                    0,
                ),
        {
            let ghost i = it.index();
            let ghost so_far = shown(all.take(i));
            proof {
                assert(all.take(i + 1).drop_last() =~= all.take(i));
                assert(all.take(i + 1).last() == e@);
            }
            if !path::same_bytes(e.name.as_slice(), hidden) {
                let ghost held = lines@;
                let ghost v = e@;
                let ghost whole = listing(before.table, ino, dir@, so_far);
                let target = dir.join(e.name.as_slice());
                let child_ino = self.inodes.ino_for(target);
                count = count + 1;
                lines.push(DirLine { ino: child_ino, offset: count, kind: listed_kind(e.kind), name: e.name });
                proof {
                    assert(so_far.push(v).drop_last() =~= so_far);
                    let next = listing(before.table, ino, dir@, so_far.push(v));
                    assert(next =~= whole.push(child_line(before.table, dir@, so_far, v)));
                    assert(page(whole, 0).len() == whole.len());
                    assert(line_views(held).len() == held.len());
                    assert forall|k: int| 0 <= k < lines@.len() implies #[trigger] line_views(
                        lines@,
                    )[k] == page(next, 0)[k] by {
                        if k < held.len() {
                            assert(line_views(held)[k] == page(whole, 0)[k]);
                        }
                    }
                    assert(line_views(lines@) =~= page(next, 0));
                }
            }
        }
        proof {
            assert(all.take(n as int) =~= all);
        }
        let ghost whole = listing(before.table, ino, dir@, shown(all));
        let ghost lined = lines@;
        let mut r: Vec<DirLine> = Vec::new();
        let mut at: u64 = 0;
        assert(line_views(r@) =~= Seq::<LineView>::empty());
        for line in it: lines
            invariant
                it.seq() == lined,
                line_views(lined) == page(whole, 0),
                lined.len() == whole.len() <= u64::MAX,
                at == it.index(),
                at < offset ==> r@.len() == 0,
                at >= offset ==> r@.len() == at - offset,
                forall|k: int|
                    0 <= k < r@.len() ==> #[trigger] r@[k]@ == page(whole, 0)[offset + k],
        {
            let ghost v = line@;
            proof {
                assert(line_views(lined)[at as int] == v);
            }
            if at >= offset {
                r.push(line);
            }
            at = at + 1;
        }
        proof {
            assert(line_views(r@) =~= page(whole, offset as int));
        }
        r
    }

    /// A request to open a file.
    pub fn open(&self, ino: INodeNo, mode: AccessMode) -> (r: Result<Gated, Errno>)
        ensures
            gate_result(
                r,
                inode_refusal(self@.table, ino),
                self@.table.paths[ino],
                OpView::Open {
                    path: self@.table.paths[ino],
                    read: mode != AccessMode::WriteOnly,
                    write: mode != AccessMode::ReadOnly,
                },
            ),
            r is Ok ==> spares_the_whitelist(r->Ok_0.holds()),
    {
        let path = self.inode_target(ino)?;
        let target = path.clone();
        let (read, write) = match mode {
            AccessMode::ReadOnly => (true, false),
            AccessMode::WriteOnly => (false, true),
            AccessMode::ReadWrite => (true, true),
        };
        Ok(Gated { target, op: BackingOp::Open { path, read, write } })
    }

    /// The answer to a request to open a file: the handle of the open file, or
    /// the failure as it came.
    pub fn opened(&mut self, file: Result<H, Errno>, now: u64) -> (r: Result<u64, Errno>)
        ensures
            match file {
                Ok(f) => {
                    &&& r == Ok::<u64, Errno>(old(self)@.files.next)
                    &&& final(self)@ == (FsView {
                        files: handles::with_file(old(self)@.files, f),
                        last_activity: now,
                        ..old(self)@
                    })
                },
                Err(e) => r == Err::<u64, Errno>(e) && final(self)@ == old(self)@,
            },
    {
        match file {
            Ok(f) => {
                let fh = self.handles.insert(f);
                self.mark_activity(now);
                Ok(fh)
            },
            Err(e) => Err(e),
        }
    }

    /// A request to create the file `name` in the directory `parent`.
    pub fn create(&self, parent: INodeNo, name: &[u8], mode: u32) -> (r: Result<Gated, Errno>)
        ensures
            gate_result(
                r,
                entry_refusal(self@.table, parent, name@),
                child(self@.table, parent, name@),
                OpView::CreateFile { path: child(self@.table, parent, name@), mode },
            ),
            r is Ok ==> spares_the_whitelist(r->Ok_0.holds()),
    {
        let path = self.entry_target(parent, name)?;
        let target = path.clone();
        Ok(Gated { target, op: BackingOp::CreateFile { path, mode } })
    }

    /// The answer to a request that created the file `target`: its attributes
    /// and the handle under which it is open, or the failure as it came.
    pub fn created(&mut self, target: UnixPath, outcome: Result<(H, BackingMeta), Errno>, now: u64) -> (r:
        Result<(FileAttr, u64), Errno>)
        requires
            inode_table::has_room(old(self)@.table, target@),
        ensures
            match outcome {
                Ok((f, m)) => {
                    &&& r == Ok::<(FileAttr, u64), Errno>(
                        (
                            attributes::attr_of(inode_table::ino_of(old(self)@.table, target@), m),
                            old(self)@.files.next,
                        ),
                    )
                    &&& final(self)@ == (FsView {
                        table: inode_table::entered(old(self)@.table, target@),
                        files: handles::with_file(old(self)@.files, f),
                        last_activity: now,
                        ..old(self)@
                    })
                },
                Err(e) => r == Err::<(FileAttr, u64), Errno>(e) && final(self)@ == old(self)@,
            },
    {
        match outcome {
            Ok((f, m)) => {
                let ino = self.inodes.ino_for(target);
                let attr = attributes::attr_from_metadata(ino, &m);
                let fh = self.handles.insert(f);
                self.mark_activity(now);
                Ok((attr, fh))
            },
            Err(e) => Err(e),
        }
    }

    /// The open file to read from.
    pub fn read(&self, fh: u64) -> (r: Result<&H, Errno>)
        ensures
            match r {
                Ok(f) => self@.files.open.contains_key(fh) && *f == self@.files.open[fh],
                Err(e) => e == Errno::EBADF && !self@.files.open.contains_key(fh),
            },
    {
        match self.handles.get(fh) {
            Some(f) => Ok(f),
            None => Err(Errno::EBADF),
        }
    }

    /// The answer to a read into `buf`: as many bytes as were read, or the
    /// failure as it came.
    pub fn read_done(&mut self, buf: Vec<u8>, outcome: Result<usize, Errno>, now: u64) -> (r: Result<
        Vec<u8>,
        Errno,
    >)
        ensures
            match outcome {
                Ok(n) => {
                    &&& r is Ok
                    &&& r->Ok_0@ == if n < buf@.len() {
                        buf@.take(n as int)
                    } else {
                        buf@
                    }
                    &&& final(self)@ == (FsView { last_activity: now, ..old(self)@ })
                },
                Err(e) => r == Err::<Vec<u8>, Errno>(e) && final(self)@ == old(self)@,
            },
    {
        match outcome {
            Ok(n) => {
                self.mark_activity(now);
                let mut data = buf;
                data.truncate(n);
                Ok(data)
            },
            Err(e) => Err(e),
        }
    }

    /// The open file to write to.
    pub fn write(&self, fh: u64) -> (r: Result<&H, Errno>)
        ensures
            match r {
                Ok(f) => self@.files.open.contains_key(fh) && *f == self@.files.open[fh],
                Err(e) => e == Errno::EBADF && !self@.files.open.contains_key(fh),
            },
    {
        self.read(fh)
    }

    /// The answer to a write: how many bytes were written, or the failure as
    /// it came.
    pub fn write_done(&mut self, outcome: Result<usize, Errno>, now: u64) -> (r: Result<u32, Errno>)
        ensures
            match outcome {
                Ok(n) => {
                    &&& r == Ok::<u32, Errno>(attributes::low_half(n as u64))
                    &&& final(self)@ == (FsView { last_activity: now, ..old(self)@ })
                },
                Err(e) => r == Err::<u32, Errno>(e) && final(self)@ == old(self)@,
            },
    {
        match outcome {
            Ok(n) => {
                self.mark_activity(now);
                Ok((n as u64 % 0x1_0000_0000) as u32)
            },
            Err(e) => Err(e),
        }
    }

    /// A request to release a handle.
    pub fn release(&mut self, fh: u64)
        ensures
            final(self)@ == (FsView {
                files: handles::without_file(old(self)@.files, fh),
                ..old(self)@
            }),
    {
        self.handles.remove(fh);
    }

    /// A request to make the directory `name` in `parent`.
    pub fn mkdir(&self, parent: INodeNo, name: &[u8]) -> (r: Result<Gated, Errno>)
        ensures
            gate_result(
                r,
                entry_refusal(self@.table, parent, name@),
                child(self@.table, parent, name@),
                OpView::CreateDir { path: child(self@.table, parent, name@) },
            ),
            r is Ok ==> spares_the_whitelist(r->Ok_0.holds()),
    {
        let path = self.entry_target(parent, name)?;
        let target = path.clone();
        Ok(Gated { target, op: BackingOp::CreateDir { path } })
    }

    /// A request to make the symlink `name` in `parent`. It is gated on the
    /// path of the link; what it holds is kept as it is.
    pub fn symlink(&self, parent: INodeNo, name: &[u8], content: &UnixPath) -> (r: Result<
        Gated,
        Errno,
    >)
        ensures
            gate_result(
                r,
                entry_refusal(self@.table, parent, name@),
                child(self@.table, parent, name@),
                OpView::MakeSymlink {
                    content: content@,
                    path: child(self@.table, parent, name@),
                },
            ),
            r is Ok ==> spares_the_whitelist(r->Ok_0.holds()),
    {
        let path = self.entry_target(parent, name)?;
        let target = path.clone();
        Ok(Gated { target, op: BackingOp::MakeSymlink { content: content.clone(), path } })
    }

    /// A request to make `newname` in `newparent` a second name for the file
    /// `ino`. It is gated on the path of the new name, like `create`.
    pub fn link(&self, ino: INodeNo, newparent: INodeNo, newname: &[u8]) -> (r: Result<
        Gated,
        Errno,
    >)
        ensures
            gate_result(
                r,
                link_refusal(self@.table, ino, newparent, newname@),
                child(self@.table, newparent, newname@),
                OpView::HardLink {
                    source: self@.table.paths[ino],
                    path: child(self@.table, newparent, newname@),
                },
            ),
            r is Ok ==> spares_the_whitelist(r->Ok_0.holds()),
    {
        let (source, dir) = match (self.inodes.path(ino), self.inodes.path(newparent)) {
            (Some(source), Some(dir)) => (source, dir),
            _ => {
                return Err(Errno::ENOENT);
            },
        };
        let path = dir.join(newname);
        if is_protected(&source) || is_protected(&path) {
            return Err(Errno::EACCES);
        }
        let target = path.clone();
        Ok(Gated { target, op: BackingOp::HardLink { source, path } })
    }

    /// A request to remove the file `name` from `parent`.
    pub fn unlink(&self, parent: INodeNo, name: &[u8]) -> (r: Result<Gated, Errno>)
        ensures
            gate_result(
                r,
                entry_refusal(self@.table, parent, name@),
                child(self@.table, parent, name@),
                OpView::RemoveFile { path: child(self@.table, parent, name@) },
            ),
            r is Ok ==> spares_the_whitelist(r->Ok_0.holds()),
    {
        let path = self.entry_target(parent, name)?;
        let target = path.clone();
        Ok(Gated { target, op: BackingOp::RemoveFile { path } })
    }

    /// A request to remove the directory `name` from `parent`.
    pub fn rmdir(&self, parent: INodeNo, name: &[u8]) -> (r: Result<Gated, Errno>)
        ensures
            gate_result(
                r,
                entry_refusal(self@.table, parent, name@),
                child(self@.table, parent, name@),
                OpView::RemoveDir { path: child(self@.table, parent, name@) },
            ),
            r is Ok ==> spares_the_whitelist(r->Ok_0.holds()),
    {
        let path = self.entry_target(parent, name)?;
        let target = path.clone();
        Ok(Gated { target, op: BackingOp::RemoveDir { path } })
    }

    /// The answer to a request that removed `target`. Once it is removed, its
    /// inode is forgotten.
    pub fn removed(&mut self, target: &UnixPath, outcome: Result<(), Errno>) -> (r: Result<
        (),
        Errno,
    >)
        ensures
            r == outcome,
            final(self)@ == match outcome {
                Ok(_) => FsView {
                    table: inode_table::forgotten(old(self)@.table, target@),
                    ..old(self)@
                },
                Err(_) => old(self)@,
            },
    {
        if outcome.is_ok() {
            self.inodes.forget_path(target);
        }
        outcome
    }

    /// A request to move `name` in `parent` to `newname` in `newparent`. It is
    /// gated on what is moved.
    pub fn rename(&self, parent: INodeNo, name: &[u8], newparent: INodeNo, newname: &[u8]) -> (r:
        Result<Gated, Errno>)
        ensures
            gate_result(
                r,
                rename_refusal(self@.table, parent, name@, newparent, newname@),
                child(self@.table, parent, name@),
                OpView::Rename {
                    from: child(self@.table, parent, name@),
                    to: child(self@.table, newparent, newname@),
                },
            ),
            r is Ok ==> spares_the_whitelist(r->Ok_0.holds()),
    {
        let (dir, newdir) = match (self.inodes.path(parent), self.inodes.path(newparent)) {
            (Some(dir), Some(newdir)) => (dir, newdir),
            _ => {
                return Err(Errno::ENOENT);
            },
        };
        let from = dir.join(name);
        let to = newdir.join(newname);
        if is_protected(&from) || is_protected(&to) {
            return Err(Errno::EACCES);
        }
        let target = from.clone();
        Ok(Gated { target, op: BackingOp::Rename { from, to } })
    }

    /// The answer to a request that moved `from` to `to`. Once it is moved, its
    /// inode goes with it.
    pub fn renamed(&mut self, from: &UnixPath, to: UnixPath, outcome: Result<(), Errno>) -> (r:
        Result<(), Errno>)
        ensures
            r == outcome,
            final(self)@ == match outcome {
                Ok(_) => FsView {
                    table: inode_table::renamed(old(self)@.table, from@, to@),
                    ..old(self)@
                },
                Err(_) => old(self)@,
            },
    {
        if outcome.is_ok() {
            self.inodes.rename(from, to);
        }
        outcome
    }
}

/// The name of the whitelist file is a name as a directory lists it.
proof fn lemma_whitelist_name()
    ensures
        path::is_entry_name(encode_utf8(WHITELIST_FILENAME@)),
{
    reveal_strlit(".attache-gate-whitelist.json");
    let name = WHITELIST_FILENAME@;
    is_ascii_chars_encode_utf8(name);
    assert forall|i: int| 0 <= i < name.len() implies #[trigger] name[i] != '/' by {}
    let bytes = encode_utf8(name);
    assert forall|i: int| 0 <= i < bytes.len() implies #[trigger] bytes[i] != path::SLASH by {
        assert(name[i] != '/');
    }
}

/// The whitelist file is refused in every directory: each request that names
/// it is turned away before the program that makes it is looked at.
pub proof fn law_whitelist_is_refused_in_every_directory(
    t: TableView,
    dir: INodeNo,
    other: INodeNo,
    name: Seq<u8>,
)
    ensures
        ({
            let hidden = encode_utf8(WHITELIST_FILENAME@);
            &&& entry_refusal(t, dir, hidden) is Some
            &&& link_refusal(t, other, dir, hidden) is Some
            &&& rename_refusal(t, dir, hidden, other, name) is Some
            &&& rename_refusal(t, other, name, dir, hidden) is Some
        }),
{
    lemma_whitelist_name();
    if t.paths.contains_key(dir) {
        path::law_joined_name_is_the_last(t.paths[dir], encode_utf8(WHITELIST_FILENAME@));
    }
}

/// No inode ever leads to a whitelist file: the table of a fresh mount has none
/// (unless the vault itself is called so), and no answer adds one. With that,
/// no request at all touches a whitelist file.
pub proof fn law_vault_stays_sealed(t: TableView, target: Seq<u8>, from: Seq<u8>)
    requires
        sealed(t),
        !is_whitelist_file(target),
    ensures
        sealed(inode_table::fresh(target)),
        sealed(inode_table::entered(t, target)),
        sealed(inode_table::renamed(t, from, target)),
        sealed(inode_table::forgotten(t, from)),
{
}

/// A directory listing adds no inode that leads to a whitelist file.
pub proof fn law_listing_keeps_the_vault_sealed(t: TableView, dir: Seq<u8>, s: Seq<FoundView>)
    requires
        sealed(t),
        forall|i: int| 0 <= i < s.len() ==> path::is_entry_name(#[trigger] s[i].name),
    ensures
        sealed(enter_all(t, dir, shown(s))),
    decreases s.len(),
{
    if s.len() > 0 {
        law_listing_keeps_the_vault_sealed(t, dir, s.drop_last());
        let e = s.last();
        assert(path::is_entry_name(s[s.len() - 1].name));
        path::law_joined_name_is_the_last(dir, e.name);
        let before = shown(s.drop_last());
        assert(before.push(e).drop_last() =~= before);
    }
}

/// A directory listing keeps the table consistent.
pub proof fn law_listing_keeps_the_table_consistent(t: TableView, dir: Seq<u8>, s: Seq<FoundView>)
    requires
        inode_table::consistent(t),
        t.next + s.len() <= u64::MAX,
    ensures
        inode_table::consistent(enter_all(t, dir, s)),
        enter_all(t, dir, s).next <= t.next + s.len(),
    decreases s.len(),
{
    if s.len() > 0 {
        law_listing_keeps_the_table_consistent(t, dir, s.drop_last());
    }
}

/// Whether a path lies at or below `root`: it starts with the names of the
/// root, and none of the names after them leads up.
pub open spec fn is_inside(root: path::PathKey, k: path::PathKey) -> bool {
    &&& k.rooted == root.rooted
    &&& k.here == root.here
    &&& k.names.len() >= root.names.len()
    &&& k.names.take(root.names.len() as int) == root.names
    &&& forall|i: int|
        root.names.len() <= i < k.names.len() ==> #[trigger] k.names[i] != seq![
            path::DOT,
            path::DOT,
        ]
}

/// The root directory is the inode 1, and every inode leads to it or to
/// something below it.
pub open spec fn contained(t: TableView, root: Seq<u8>) -> bool {
    &&& t.paths.contains_key(ROOT)
    &&& t.paths[ROOT] == root
    &&& t.by_path.contains_key(path::key_of(root))
    &&& t.by_path[path::key_of(root)] == ROOT
    &&& forall|i: u64| #[trigger]
        t.paths.contains_key(i) ==> is_inside(path::key_of(root), path::key_of(t.paths[i]))
}

/// A fresh mount leads to the backing directory and to nothing else.
pub proof fn law_fresh_mount_is_contained(root: Seq<u8>)
    ensures
        contained(inode_table::fresh(root), root),
{
    let k = path::key_of(root);
    assert(k.names.take(k.names.len() as int) =~= k.names);
}

/// What a request names in a directory of the vault lies below the backing
/// directory, and no answer about it leads out of that directory or takes the
/// inode 1 away from it.
pub proof fn law_vault_stays_inside_the_backing_directory(
    t: TableView,
    root: Seq<u8>,
    parent: INodeNo,
    name: Seq<u8>,
    newparent: INodeNo,
    newname: Seq<u8>,
)
    requires
        inode_table::consistent(t),
        contained(t, root),
        t.paths.contains_key(parent),
        t.paths.contains_key(newparent),
        path::is_entry_name(name),
        path::is_entry_name(newname),
    ensures
        ({
            let from = child(t, parent, name);
            let to = child(t, newparent, newname);
            &&& is_inside(path::key_of(root), path::key_of(from))
            &&& path::key_of(from) != path::key_of(root)
            &&& inode_table::has_room(t, from) ==> contained(inode_table::entered(t, from), root)
            &&& contained(inode_table::renamed(t, from, to), root)
            &&& contained(inode_table::forgotten(t, from), root)
        }),
{
    lemma_child_is_inside(path::key_of(root), t.paths[parent], name);
    lemma_child_is_inside(path::key_of(root), t.paths[newparent], newname);
    let k = path::key_of(child(t, parent, name));
    if t.by_path.contains_key(k) {
        assert(path::key_of(t.paths[t.by_path[k]]) == k);
        assert(t.by_path[k] != ROOT);
    }
}

proof fn lemma_child_is_inside(root: path::PathKey, dir: Seq<u8>, name: Seq<u8>)
    requires
        is_inside(root, path::key_of(dir)),
        path::is_entry_name(name),
    ensures
        is_inside(root, path::key_of(path::joined(dir, name))),
        path::key_of(path::joined(dir, name)) != root,
{
    path::law_joined_path_has_one_more_name(dir, name);
    let names = path::key_of(dir).names;
    assert(names.push(name).take(root.names.len() as int) =~= names.take(root.names.len() as int));
}

/// A directory listing leads to nothing outside the backing directory.
pub proof fn law_listing_stays_inside_the_backing_directory(
    t: TableView,
    root: Seq<u8>,
    dir: Seq<u8>,
    s: Seq<FoundView>,
)
    requires
        contained(t, root),
        is_inside(path::key_of(root), path::key_of(dir)),
        forall|i: int| 0 <= i < s.len() ==> path::is_entry_name(#[trigger] s[i].name),
        t.next >= 2,
        t.next + s.len() <= u64::MAX,
    ensures
        contained(enter_all(t, dir, s), root),
        2 <= enter_all(t, dir, s).next <= t.next + s.len(),
    decreases s.len(),
{
    if s.len() > 0 {
        law_listing_stays_inside_the_backing_directory(t, root, dir, s.drop_last());
        assert(path::is_entry_name(s[s.len() - 1].name));
        lemma_child_is_inside(path::key_of(root), dir, s.last().name);
    }
}

/// A directory listing never shows the whitelist file.
pub proof fn law_listing_hides_the_whitelist(
    t: TableView,
    ino: INodeNo,
    dir: Seq<u8>,
    s: Seq<FoundView>,
    from: int,
)
    requires
        0 <= from,
    ensures
        forall|i: int|
            0 <= i < page(listing(t, ino, dir, shown(s)), from).len() ==> (#[trigger] page(
                listing(t, ino, dir, shown(s)),
                from,
            )[i]).name != encode_utf8(WHITELIST_FILENAME@),
{
    lemma_listing_hides(t, ino, dir, s);
}

proof fn lemma_listing_hides(t: TableView, ino: INodeNo, dir: Seq<u8>, s: Seq<FoundView>)
    ensures
        forall|i: int|
            0 <= i < listing(t, ino, dir, shown(s)).len() ==> (#[trigger] listing(
                t,
                ino,
                dir,
                shown(s),
            )[i]).name != encode_utf8(WHITELIST_FILENAME@),
    decreases s.len(),
{
    lemma_whitelist_name();
    if s.len() > 0 {
        lemma_listing_hides(t, ino, dir, s.drop_last());
        let before = shown(s.drop_last());
        assert(before.push(s.last()).drop_last() =~= before);
    }
}

/// Pages follow each other without a gap: the offset of a line is where a
/// request for the next one starts.
pub proof fn law_listing_goes_on_where_it_stopped(all: Seq<Listed>, from: int, i: int)
    requires
        0 <= from,
        0 <= i < page(all, from).len(),
    ensures
        page(all, page(all, from)[i].offset) == page(all, from).skip(i + 1),
{
    assert(page(all, from + i + 1) =~= page(all, from).skip(i + 1));
}

/// A path is protected exactly when its last name is the whitelist's.
pub proof fn law_protected_by_the_last_name(b: Seq<u8>)
    ensures
        is_whitelist_file(b) <==> path::last_name(path::key_of(b)) == Some(
            encode_utf8(".attache-gate-whitelist.json"@),
        ),
{
}

/// A request about a name in a directory is refused for two reasons only: the
/// directory is not known, or what is named has the whitelist's name as its last
/// name. Otherwise it goes ahead, gated on the path of the name in the directory,
/// and holds what is asked for.
pub proof fn law_request_about_a_name_needs_a_reason_to_be_refused(
    t: TableView,
    parent: INodeNo,
    name: Seq<u8>,
    op: OpView,
    r: Result<Gated, Errno>,
)
    requires
        gate_result(r, entry_refusal(t, parent, name), child(t, parent, name), op),
    ensures
        child(t, parent, name) == path::joined(t.paths[parent], name),
        ({
            let hidden = Some(encode_utf8(".attache-gate-whitelist.json"@));
            let last = path::last_name(path::key_of(path::joined(t.paths[parent], name)));
            &&& entry_refusal(t, parent, name) == Some(Errno::ENOENT)
                <==> !t.paths.contains_key(parent)
            &&& entry_refusal(t, parent, name) == Some(Errno::EACCES) <==> t.paths.contains_key(
                parent,
            ) && last == hidden
            &&& entry_refusal(t, parent, name) is None <==> t.paths.contains_key(parent) && last
                != hidden
            &&& r == Err::<Gated, Errno>(Errno::ENOENT) <==> !t.paths.contains_key(parent)
            &&& r == Err::<Gated, Errno>(Errno::EACCES) <==> t.paths.contains_key(parent) && last
                == hidden
            &&& r is Ok <==> t.paths.contains_key(parent) && last != hidden
            &&& r is Ok ==> r->Ok_0.asks() == path::joined(t.paths[parent], name)
                && r->Ok_0.holds() == op
        }),
{
}

/// A request about a file is refused for two reasons only: the file is not known,
/// or its path has the whitelist's name as its last name. Otherwise it goes ahead,
/// gated on the path of the file, and holds what is asked for.
pub proof fn law_request_about_a_file_needs_a_reason_to_be_refused(
    t: TableView,
    ino: INodeNo,
    op: OpView,
    r: Result<Gated, Errno>,
)
    requires
        gate_result(r, inode_refusal(t, ino), t.paths[ino], op),
    ensures
        ({
            let hidden = Some(encode_utf8(".attache-gate-whitelist.json"@));
            let last = path::last_name(path::key_of(t.paths[ino]));
            &&& inode_refusal(t, ino) == Some(Errno::ENOENT) <==> !t.paths.contains_key(ino)
            &&& inode_refusal(t, ino) == Some(Errno::EACCES) <==> t.paths.contains_key(ino) && last
                == hidden
            &&& inode_refusal(t, ino) is None <==> t.paths.contains_key(ino) && last != hidden
            &&& r == Err::<Gated, Errno>(Errno::ENOENT) <==> !t.paths.contains_key(ino)
            &&& r == Err::<Gated, Errno>(Errno::EACCES) <==> t.paths.contains_key(ino) && last
                == hidden
            &&& r is Ok <==> t.paths.contains_key(ino) && last != hidden
            &&& r is Ok ==> r->Ok_0.asks() == t.paths[ino] && r->Ok_0.holds() == op
        }),
{
}

/// A rename is refused for two reasons only, within a directory as between two: one
/// of the directories is not known, or one of the two paths has the whitelist's
/// name as its last name. Otherwise it goes ahead, gated on what is moved, and moves
/// that path to the other.
pub proof fn law_rename_needs_a_reason_to_be_refused(
    t: TableView,
    parent: INodeNo,
    name: Seq<u8>,
    newparent: INodeNo,
    newname: Seq<u8>,
    r: Result<Gated, Errno>,
)
    requires
        gate_result(
            r,
            rename_refusal(t, parent, name, newparent, newname),
            child(t, parent, name),
            (OpView::Rename {
                from: child(t, parent, name),
                to: child(t, newparent, newname),
            }),
        ),
    ensures
        ({
            let hidden = Some(encode_utf8(".attache-gate-whitelist.json"@));
            let from = path::joined(t.paths[parent], name);
            let to = path::joined(t.paths[newparent], newname);
            let known = t.paths.contains_key(parent) && t.paths.contains_key(newparent);
            let free = path::last_name(path::key_of(from)) != hidden && path::last_name(
                path::key_of(to),
            ) != hidden;
            &&& r == Err::<Gated, Errno>(Errno::ENOENT) <==> !known
            &&& r == Err::<Gated, Errno>(Errno::EACCES) <==> known && !free
            &&& r is Ok <==> known && free
            &&& r is Ok ==> r->Ok_0.asks() == from && r->Ok_0.holds() == (OpView::Rename {
                from,
                to,
            })
        }),
{
}

/// A hard link is refused for two reasons only: the file or the directory is not
/// known, or one of the two paths has the whitelist's name as its last name.
/// Otherwise it goes ahead, gated on the new name, and makes that a second name for
/// the file.
pub proof fn law_link_needs_a_reason_to_be_refused(
    t: TableView,
    ino: INodeNo,
    newparent: INodeNo,
    newname: Seq<u8>,
    r: Result<Gated, Errno>,
)
    requires
        gate_result(
            r,
            link_refusal(t, ino, newparent, newname),
            child(t, newparent, newname),
            (OpView::HardLink { source: t.paths[ino], path: child(t, newparent, newname) }),
        ),
    ensures
        ({
            let hidden = Some(encode_utf8(".attache-gate-whitelist.json"@));
            let to = path::joined(t.paths[newparent], newname);
            let known = t.paths.contains_key(ino) && t.paths.contains_key(newparent);
            let free = path::last_name(path::key_of(t.paths[ino])) != hidden && path::last_name(
                path::key_of(to),
            ) != hidden;
            &&& r == Err::<Gated, Errno>(Errno::ENOENT) <==> !known
            &&& r == Err::<Gated, Errno>(Errno::EACCES) <==> known && !free
            &&& r is Ok <==> known && free
            &&& r is Ok ==> r->Ok_0.asks() == to && r->Ok_0.holds() == (OpView::HardLink {
                source: t.paths[ino],
                path: to,
            })
        }),
{
}

/// Of the names that a directory can hold, the whitelist's is the only one that is
/// refused: in a known directory a request about any other goes ahead, and so does a
/// rename of any other name to any other name, within a directory or between two.
pub proof fn law_only_the_whitelist_is_refused(
    t: TableView,
    parent: INodeNo,
    name: Seq<u8>,
    newparent: INodeNo,
    newname: Seq<u8>,
)
    requires
        t.paths.contains_key(parent),
        t.paths.contains_key(newparent),
        path::is_entry_name(name),
        path::is_entry_name(newname),
    ensures
        ({
            let hidden = encode_utf8(".attache-gate-whitelist.json"@);
            &&& entry_refusal(t, parent, name) is None <==> name != hidden
            &&& rename_refusal(t, parent, name, newparent, newname) is None <==> name != hidden
                && newname != hidden
        }),
{
    path::law_joined_name_is_the_last(t.paths[parent], name);
    path::law_joined_name_is_the_last(t.paths[newparent], newname);
}

proof fn lemma_shown_is_filtered(s: Seq<FoundView>)
    ensures
        shown(s) == s.filter(
            |e: FoundView| e.name != encode_utf8(".attache-gate-whitelist.json"@),
        ),
    decreases s.len(),
{
    reveal(Seq::filter);
    if s.len() > 0 {
        lemma_shown_is_filtered(s.drop_last());
    }
}

/// What is shown of a directory is everything that was found in it, in the order in
/// which it was found, but for the whitelist file.
pub proof fn law_everything_but_the_whitelist_is_shown(s: Seq<FoundView>, i: int)
    requires
        0 <= i < s.len(),
    ensures
        shown(s) == s.filter(
            |e: FoundView| e.name != encode_utf8(".attache-gate-whitelist.json"@),
        ),
        shown(s).contains(s[i]) <==> s[i].name != encode_utf8(".attache-gate-whitelist.json"@),
{
    let keep = |e: FoundView| e.name != encode_utf8(".attache-gate-whitelist.json"@);
    lemma_shown_is_filtered(s);
    broadcast use vstd::seq_lib::group_filter_ensures;

    if keep(s[i]) {
        assert(s.filter(keep).contains(s[i]));
    } else if shown(s).contains(s[i]) {
        let j = choose|j: int| 0 <= j < shown(s).len() && shown(s)[j] == s[i];
        assert(keep(s.filter(keep)[j]));
    }
}

proof fn lemma_listing(t: TableView, ino: INodeNo, dir: Seq<u8>, s: Seq<FoundView>)
    ensures
        listing(t, ino, dir, s).len() == 2 + s.len(),
        listing(t, ino, dir, s)[0] == (Listed {
            ino,
            kind: FileType::Directory,
            name: seq![46u8],
        }),
        listing(t, ino, dir, s)[1] == (Listed {
            ino,
            kind: FileType::Directory,
            name: seq![46u8, 46u8],
        }),
        forall|i: int|
            0 <= i < s.len() ==> (#[trigger] listing(t, ino, dir, s)[2 + i]).name == s[i].name,
        forall|i: int|
            0 <= i < s.len() ==> (#[trigger] listing(t, ino, dir, s)[2 + i]).kind == match s[i].kind {
                EntryKind::Directory => FileType::Directory,
                EntryKind::Symlink => FileType::Symlink,
                EntryKind::Other => FileType::RegularFile,
            },
    decreases s.len(),
{
    if s.len() > 0 {
        let front = s.drop_last();
        lemma_listing(t, ino, dir, front);
        let before = listing(t, ino, dir, front);
        assert forall|i: int| 0 <= i < front.len() implies (#[trigger] listing(
            t,
            ino,
            dir,
            s,
        )[2 + i]) == before[2 + i] by {}
    }
}

/// A listing is complete and in order: it has the two lines of the directory itself,
/// `.` and `..`, and one more line for everything that was found and is not the
/// whitelist file, under its name and as what it is, in the order in which it was
/// found. Each line is numbered with the place of the next.
pub proof fn law_listing_is_complete(
    t: TableView,
    ino: INodeNo,
    dir: Seq<u8>,
    s: Seq<FoundView>,
    i: int,
)
    ensures
        ({
            let lines = page(listing(t, ino, dir, shown(s)), 0);
            let kept = s.filter(
                |e: FoundView| e.name != encode_utf8(".attache-gate-whitelist.json"@),
            );
            &&& lines.len() == 2 + kept.len()
            &&& lines[0] == (LineView {
                ino,
                offset: 1,
                kind: FileType::Directory,
                name: seq![46u8],
            })
            &&& lines[1] == (LineView {
                ino,
                offset: 2,
                kind: FileType::Directory,
                name: seq![46u8, 46u8],
            })
            &&& 0 <= i < kept.len() ==> {
                &&& lines[2 + i].name == kept[i].name
                &&& lines[2 + i].offset == 3 + i
                &&& lines[2 + i].kind == FileType::Directory <==> kept[i].kind
                    == EntryKind::Directory
                &&& lines[2 + i].kind == FileType::Symlink <==> kept[i].kind == EntryKind::Symlink
                &&& lines[2 + i].kind == FileType::RegularFile <==> kept[i].kind
                    == EntryKind::Other
            }
        }),
{
    lemma_shown_is_filtered(s);
    lemma_listing(t, ino, dir, shown(s));
    if 0 <= i < shown(s).len() {
        assert(listing(t, ino, dir, shown(s))[2 + i].name == shown(s)[i].name);
    }
}

/// A page of a listing is what follows the line where it starts: all of it, line by
/// line, and nothing where it starts past the end.
pub proof fn law_page_is_the_rest_of_the_listing(all: Seq<Listed>, from: int, i: int)
    requires
        0 <= from,
    ensures
        page(all, from).len() == if from < all.len() {
            all.len() - from
        } else {
            0
        },
        0 <= i && from + i < all.len() ==> {
            let line = page(all, from)[i];
            &&& line.ino == all[from + i].ino
            &&& line.kind == all[from + i].kind
            &&& line.name == all[from + i].name
            &&& line.offset == from + i + 1
        },
        page(all, 0).len() == all.len(),
        from <= all.len() ==> page(all, from) == page(all, 0).skip(from),
{
    if from <= all.len() {
        assert(page(all, from) =~= page(all, 0).skip(from));
    }
}

/// Each line of a listing has the inode of what it names: a lookup of the name in
/// the directory gives the same number after the listing, and a name that had an
/// inode before it keeps it.
pub proof fn law_listed_inode_is_that_of_the_name(
    t: TableView,
    ino: INodeNo,
    dir: Seq<u8>,
    s: Seq<FoundView>,
    i: int,
)
    requires
        0 <= i < s.len(),
        t.next + s.len() <= 0xffff_ffff_ffff_ffff,
    ensures
        ({
            let k = path::key_of(path::joined(dir, s[i].name));
            let after = enter_all(t, dir, s);
            let listed = listing(t, ino, dir, s)[2 + i].ino;
            &&& after.by_path.contains_key(k)
            &&& after.by_path[k] == listed
            &&& t.by_path.contains_key(k) ==> listed == t.by_path[k]
        }),
    decreases s.len(),
{
    let front = s.drop_last();
    lemma_listing(t, ino, dir, front);
    lemma_inodes_stay(t, dir, front);
    lemma_inodes_stay(t, dir, s);
    if i < front.len() {
        law_listed_inode_is_that_of_the_name(t, ino, dir, front, i);
        assert(listing(t, ino, dir, s)[2 + i] == listing(t, ino, dir, front)[2 + i]);
        let k = path::key_of(path::joined(dir, s[i].name));
        assert(front[i] == s[i]);
        assert(enter_all(t, dir, front).by_path.contains_key(k));
    }
}

proof fn lemma_inodes_stay(t: TableView, dir: Seq<u8>, s: Seq<FoundView>)
    requires
        t.next + s.len() <= 0xffff_ffff_ffff_ffff,
    ensures
        enter_all(t, dir, s).next <= t.next + s.len(),
        forall|k: path::PathKey| #[trigger]
            t.by_path.contains_key(k) ==> enter_all(t, dir, s).by_path.contains_key(k)
                && enter_all(t, dir, s).by_path[k] == t.by_path[k],
    decreases s.len(),
{
    if s.len() > 0 {
        lemma_inodes_stay(t, dir, s.drop_last());
    }
}

/// To list a directory is to look its names up one after the other.
pub proof fn law_listing_looks_names_up(
    t: TableView,
    ino: INodeNo,
    dir: Seq<u8>,
    s: Seq<FoundView>,
    e: FoundView,
)
    ensures
        enter_all(t, dir, Seq::empty()) == t,
        enter_all(t, dir, s.push(e)) == inode_table::entered(
            enter_all(t, dir, s),
            path::joined(dir, e.name),
        ),
        listing(t, ino, dir, s.push(e)).drop_last() == listing(t, ino, dir, s),
        listing(t, ino, dir, s.push(e)).last().ino == inode_table::ino_of(
            enter_all(t, dir, s),
            path::joined(dir, e.name),
        ),
{
    assert(s.push(e).drop_last() =~= s);
    assert(listing(t, ino, dir, s.push(e)).drop_last() =~= listing(t, ino, dir, s));
}

/// A gated operation is handed out as it is where the decision is to allow it, and
/// only there; otherwise access is denied.
pub proof fn law_decision_hands_out_or_denies(
    r: Result<BackingOp, Errno>,
    decision: Decision,
    op: OpView,
)
    requires
        is_handed_out(r, decision, op),
    ensures
        r is Ok <==> decision == Decision::Allow,
        r is Ok ==> r->Ok_0@ == op,
        r is Err ==> r->Err_0 == Errno::EACCES,
{
}

/// Where something is known of a program it decides, without a question; where
/// nothing is known the operation waits for an answer about that program.
pub proof fn law_question_is_open_only_where_nothing_is_known(
    r: Admission,
    gated: Gated,
    identity: ProcessIdentity,
    known: Option<Decision>,
)
    requires
        is_admitted(r, gated, identity, known),
    ensures
        r is Open <==> known is None,
        r is Open ==> r->Open_0.waits() == gated && r->Open_0.about() == identity,
        known == Some(Decision::Allow) ==> (r matches Admission::Decided(Ok(op)) && op@
            == gated.holds()),
        known == Some(Decision::Deny) ==> r == Admission::Decided(Err(Errno::EACCES)),
{
}

/// The space is asked for where the file is; a file that is not known stands for the
/// root directory of the vault.
pub proof fn law_space_is_that_of_the_file(t: TableView, ino: INodeNo, b: Seq<u8>)
    ensures
        t.paths.contains_key(ino) ==> space_path(t, ino) == t.paths[ino],
        !t.paths.contains_key(ino) && t.paths.contains_key(1) ==> space_path(t, ino) == t.paths[1],
        !t.paths.contains_key(ino) && !t.paths.contains_key(1) ==> space_path(t, ino) == seq![
            47u8,
        ],
        has_nul(b) <==> b.contains(0),
{
    if b.contains(0) {
        let i = choose|i: int| 0 <= i < b.len() && b[i] == 0;
        assert(b[i] == 0);
    }
}

/// An operation touches the path that it is about, and a link or a rename both of
/// its paths; what a symlink holds is not touched. It leaves the whitelist alone
/// exactly when none of these is protected, and a table is sealed exactly when none
/// of its paths is.
pub proof fn law_operation_touches_its_paths(
    p: Seq<u8>,
    q: Seq<u8>,
    run: AttrRun,
    read: bool,
    write: bool,
    mode: u32,
    op: OpView,
    t: TableView,
)
    ensures
        touched(OpView::Stat { path: p }) == seq![p],
        touched(OpView::ReadLink { path: p }) == seq![p],
        touched(OpView::ReadDir { path: p }) == seq![p],
        touched(OpView::StatFs { path: p }) == seq![p],
        touched(OpView::SetAttributes { path: p, run }) == seq![p],
        touched(OpView::Open { path: p, read, write }) == seq![p],
        touched(OpView::CreateFile { path: p, mode }) == seq![p],
        touched(OpView::CreateDir { path: p }) == seq![p],
        touched(OpView::MakeSymlink { content: q, path: p }) == seq![p],
        touched(OpView::HardLink { source: p, path: q }) == seq![p, q],
        touched(OpView::RemoveFile { path: p }) == seq![p],
        touched(OpView::RemoveDir { path: p }) == seq![p],
        touched(OpView::Rename { from: p, to: q }) == seq![p, q],
        spares_the_whitelist(op) && touched(op).contains(p) ==> !is_whitelist_file(p),
        !spares_the_whitelist(op) ==> exists|b: Seq<u8>| #[trigger]
            touched(op).contains(b) && is_whitelist_file(b),
        sealed(t) <==> !exists|i: u64| t.paths.contains_key(i) && is_whitelist_file(t.paths[i]),
{
    if !spares_the_whitelist(op) {
        let i = choose|i: int|
            0 <= i < touched(op).len() && is_whitelist_file(#[trigger] touched(op)[i]);
        assert(touched(op).contains(touched(op)[i]));
    }
    if !(exists|i: u64| t.paths.contains_key(i) && is_whitelist_file(t.paths[i])) {
        assert forall|i: u64| #[trigger] t.paths.contains_key(i) implies !is_whitelist_file(
            t.paths[i],
        ) by {}
    }
}

/// An operation says what it holds, with its paths by their bytes.
pub proof fn law_operation_says_what_it_holds(
    p: UnixPath,
    q: UnixPath,
    run: AttrRun,
    read: bool,
    write: bool,
    mode: u32,
)
    ensures
        (BackingOp::Stat { path: p })@ == (OpView::Stat { path: p@ }),
        (BackingOp::ReadLink { path: p })@ == (OpView::ReadLink { path: p@ }),
        (BackingOp::ReadDir { path: p })@ == (OpView::ReadDir { path: p@ }),
        (BackingOp::StatFs { path: p })@ == (OpView::StatFs { path: p@ }),
        (BackingOp::SetAttributes { path: p, run })@ == (OpView::SetAttributes { path: p@, run }),
        (BackingOp::Open { path: p, read, write })@ == (OpView::Open { path: p@, read, write }),
        (BackingOp::CreateFile { path: p, mode })@ == (OpView::CreateFile { path: p@, mode }),
        (BackingOp::CreateDir { path: p })@ == (OpView::CreateDir { path: p@ }),
        (BackingOp::MakeSymlink { content: q, path: p })@ == (OpView::MakeSymlink {
            content: q@,
            path: p@,
        }),
        (BackingOp::HardLink { source: p, path: q })@ == (OpView::HardLink {
            source: p@,
            path: q@,
        }),
        (BackingOp::RemoveFile { path: p })@ == (OpView::RemoveFile { path: p@ }),
        (BackingOp::RemoveDir { path: p })@ == (OpView::RemoveDir { path: p@ }),
        (BackingOp::Rename { from: p, to: q })@ == (OpView::Rename { from: p@, to: q@ }),
{
}

/// What was found in a directory, and the lines of a listing, say what they hold,
/// one for one.
pub proof fn law_lines_say_what_they_hold(
    found: Seq<FoundEntry>,
    lines: Seq<DirLine>,
    g: Gated,
    i: int,
)
    ensures
        found_views(found).len() == found.len(),
        0 <= i < found.len() ==> found_views(found)[i].name == found[i].name@
            && found_views(found)[i].kind == found[i].kind,
        line_views(lines).len() == lines.len(),
        0 <= i < lines.len() ==> {
            let line = line_views(lines)[i];
            &&& line.ino == lines[i].ino
            &&& line.offset == lines[i].offset
            &&& line.kind == lines[i].kind
            &&& line.name == lines[i].name@
        },
        g.asks() == g.subject()@,
{
}

/// A path lies inside a directory exactly when it goes on from the directory's names
/// without a name that leads up.
pub proof fn law_inside_goes_on_from_the_directory(
    root: path::PathKey,
    names: Seq<Seq<u8>>,
    k: path::PathKey,
)
    ensures
        k.names == root.names + names && k.rooted == root.rooted && k.here == root.here ==> (
        is_inside(root, k) <==> !names.contains(seq![46u8, 46u8])),
        is_inside(root, k) ==> {
            &&& k.rooted == root.rooted
            &&& k.here == root.here
            &&& root.names.is_prefix_of(k.names)
        },
{
    let up = seq![46u8, 46u8];
    let n = root.names.len() as int;
    if k.names == root.names + names && k.rooted == root.rooted && k.here == root.here {
        assert(k.names.take(n) =~= root.names);
        if names.contains(up) {
            let i = choose|i: int| 0 <= i < names.len() && names[i] == up;
            assert(k.names[n + i] == up);
        } else {
            assert forall|i: int| n <= i < k.names.len() implies #[trigger] k.names[i] != up by {
                assert(names.contains(names[i - n]));
                assert(k.names[i] == names[i - n]);
            }
        }
    }
    if is_inside(root, k) {
        assert(k.names.take(n) =~= k.names.subrange(0, n));
        assert(root.names.is_prefix_of(k.names));
    }
}

/// Everything that was found under another name than the whitelist's has its line in
/// the listing, under its name and as what it is, whatever it is called.
pub proof fn law_every_found_name_is_listed(
    t: TableView,
    ino: INodeNo,
    dir: Seq<u8>,
    s: Seq<FoundView>,
    i: int,
)
    requires
        0 <= i < s.len(),
        s[i].name != encode_utf8(".attache-gate-whitelist.json"@),
    ensures
        ({
            let lines = page(listing(t, ino, dir, shown(s)), 0);
            exists|j: int|
                {
                    &&& 2 <= j < lines.len()
                    &&& (#[trigger] lines[j]).name == s[i].name
                    &&& lines[j].kind == FileType::Directory <==> s[i].kind == EntryKind::Directory
                    &&& lines[j].kind == FileType::Symlink <==> s[i].kind == EntryKind::Symlink
                }
        }),
{
    law_everything_but_the_whitelist_is_shown(s, i);
    let at = choose|at: int| 0 <= at < shown(s).len() && shown(s)[at] == s[i];
    law_listing_is_complete(t, ino, dir, s, at);
    let lines = page(listing(t, ino, dir, shown(s)), 0);
    assert(lines[2 + at].name == s[i].name);
}

} // verus!
