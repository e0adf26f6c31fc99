use std::cell::Cell;
use std::collections::BTreeMap;
use std::rc::Rc;

use attache::attributes::{
    attr_from_metadata, chown_ids, filetime_from, new_time, AttrChanges, AttrRun, AttrStage,
    BackingMeta, FileType, TimeOrNow, Timestamp, KEEP_ID,
};
use attache::digest::hex_digest;
use attache::errno::Errno;
use attache::handles::HandleTable;
use attache::inode_table::ROOT;
use attache::passthrough_fs::{
    is_protected, now_secs, AccessMode, Admission, BackingOp, EntryKind, FoundEntry, Gated,
    PassthroughFs,
};
use attache::path::UnixPath;
use attache::policy::{Decision, PromptResponse, Prompter};
use attache::process_info::{ProcessIdentity, ProcessResolver};
use attache::whitelist::WHITELIST_FILENAME;

struct Answers {
    answer: PromptResponse,
    calls: Rc<Cell<usize>>,
}

impl Prompter for Answers {
    fn ask(&self, _identity: &ProcessIdentity, _target: &UnixPath) -> PromptResponse {
        self.calls.set(self.calls.get() + 1);
        self.answer
    }
}

struct PanicIfAsked;

impl Prompter for PanicIfAsked {
    fn ask(&self, _identity: &ProcessIdentity, _target: &UnixPath) -> PromptResponse {
        panic!("prompted despite the binary being on the vault's whitelist");
    }
}

struct OneProgram;

impl ProcessResolver for OneProgram {
    fn resolve(&self, pid: u32) -> Option<ProcessIdentity> {
        if pid == 7 {
            Some(ProcessIdentity { path: UnixPath::new("/usr/bin/test"), comm: "test".to_string() })
        } else {
            None
        }
    }
}

const BINARY: &[u8] = b"the test binary";

fn meta(is_dir: bool, size: u64) -> BackingMeta {
    BackingMeta {
        is_dir,
        is_symlink: false,
        size,
        blocks: 8,
        accessed: Some(Timestamp { secs: 1, nanos: 2 }),
        modified: Some(Timestamp { secs: 3, nanos: 4 }),
        created: None,
        mode: 0o100644,
        nlink: 1,
        uid: 1000,
        gid: 100,
        rdev: 0,
        blksize: 4096,
    }
}

/// A backing directory in memory: files with their contents, and directories.
struct Vault<P: Prompter> {
    fs: PassthroughFs<P, OneProgram, Vec<u8>>,
    files: BTreeMap<Vec<u8>, Vec<u8>>,
    dirs: Vec<Vec<u8>>,
}

impl<P: Prompter> Vault<P> {
    fn new(prompter: P) -> Self {
        let backing = UnixPath::new("/backing");
        Vault {
            fs: PassthroughFs::new(backing.clone(), prompter, OneProgram, None, 100),
            files: BTreeMap::new(),
            dirs: vec![backing.bytes],
        }
    }

    fn allowed(&mut self, gated: Gated) -> Result<BackingOp, Errno> {
        let identity = self.fs.resolver().resolve(7);
        self.fs.permitted(gated, identity.as_ref(), Some(BINARY), Some(BINARY), 200).0
    }

    fn stat(&self, path: &UnixPath) -> Result<BackingMeta, Errno> {
        if self.dirs.contains(&path.bytes) {
            Ok(meta(true, 4096))
        } else {
            self.files.get(&path.bytes).map(|c| meta(false, c.len() as u64)).ok_or(Errno::ENOENT)
        }
    }

    fn lookup(&mut self, name: &str) -> Result<u64, Errno> {
        match self.fs.lookup(ROOT, name.as_bytes())? {
            BackingOp::Stat { path } => {
                let found = self.stat(&path);
                self.fs.lookup_done(path, found).map(|attr| attr.ino)
            }
            other => panic!("unexpected: {other:?}"),
        }
    }

    fn write_file(&mut self, name: &str, data: &[u8]) -> Result<u64, Errno> {
        let gated = self.fs.create(ROOT, name.as_bytes(), 0o644)?;
        match self.allowed(gated)? {
            BackingOp::CreateFile { path, mode } => {
                assert_eq!(mode, 0o644);
                self.files.insert(path.bytes.clone(), data.to_vec());
                let outcome = Ok((path.bytes.clone(), meta(false, data.len() as u64)));
                let (attr, fh) = self.fs.created(path, outcome, 300)?;
                assert!(self.fs.write(fh).is_ok());
                assert_eq!(self.fs.write_done(Ok(data.len()), 301), Ok(data.len() as u32));
                self.fs.release(fh);
                Ok(attr.ino)
            }
            other => panic!("unexpected: {other:?}"),
        }
    }

    fn read_file(&mut self, name: &str) -> Result<Vec<u8>, Errno> {
        let ino = self.lookup(name)?;
        let gated = self.fs.open(ino, AccessMode::ReadOnly)?;
        match self.allowed(gated)? {
            BackingOp::Open { path, read, write } => {
                assert!(read && !write);
                let fh = self.fs.opened(Ok(path.bytes), 400)?;
                let data = self.files[self.fs.read(fh)?].clone();
                let mut buf = data.clone();
                buf.resize(4096, 0);
                let got = self.fs.read_done(buf, Ok(data.len()), 401);
                self.fs.release(fh);
                got
            }
            other => panic!("unexpected: {other:?}"),
        }
    }

    fn list(&mut self) -> Vec<String> {
        match self.fs.readdir(ROOT).unwrap() {
            BackingOp::ReadDir { path } => {
                let mut prefix = path.bytes.clone();
                prefix.push(b'/');
                let inside = |full: &Vec<u8>| {
                    full.strip_prefix(prefix.as_slice()).map(|name| name.to_vec())
                };
                let mut found: Vec<FoundEntry> = vec![];
                for full in self.files.keys() {
                    if let Some(name) = inside(full) {
                        found.push(FoundEntry { name, kind: EntryKind::Other });
                    }
                }
                for full in &self.dirs {
                    if let Some(name) = inside(full) {
                        found.push(FoundEntry { name, kind: EntryKind::Directory });
                    }
                }
                self.fs
                    .readdir_done(ROOT, &path, found, 0)
                    .into_iter()
                    .map(|line| String::from_utf8(line.name).unwrap())
                    .collect()
            }
            other => panic!("unexpected: {other:?}"),
        }
    }

    fn mkdir(&mut self, name: &str) -> Result<(), Errno> {
        let gated = self.fs.mkdir(ROOT, name.as_bytes())?;
        match self.allowed(gated)? {
            BackingOp::CreateDir { path } => {
                self.dirs.push(path.bytes.clone());
                self.fs.entry_done(path, Ok(meta(true, 4096))).map(|_| ())
            }
            other => panic!("unexpected: {other:?}"),
        }
    }

    fn rmdir(&mut self, name: &str) -> Result<(), Errno> {
        let gated = self.fs.rmdir(ROOT, name.as_bytes())?;
        match self.allowed(gated)? {
            BackingOp::RemoveDir { path } => {
                self.dirs.retain(|d| *d != path.bytes);
                self.fs.removed(&path, Ok(()))
            }
            other => panic!("unexpected: {other:?}"),
        }
    }

    fn unlink(&mut self, name: &str) -> Result<(), Errno> {
        let gated = self.fs.unlink(ROOT, name.as_bytes())?;
        match self.allowed(gated)? {
            BackingOp::RemoveFile { path } => {
                let outcome = self.files.remove(&path.bytes).map(|_| ()).ok_or(Errno::ENOENT);
                self.fs.removed(&path, outcome)
            }
            other => panic!("unexpected: {other:?}"),
        }
    }

    fn rename(&mut self, name: &str, newname: &str) -> Result<(), Errno> {
        let gated = self.fs.rename(ROOT, name.as_bytes(), ROOT, newname.as_bytes())?;
        match self.allowed(gated)? {
            BackingOp::Rename { from, to } => {
                let data = self.files.remove(&from.bytes).unwrap();
                self.files.insert(to.bytes.clone(), data);
                self.fs.renamed(&from, to, Ok(()))
            }
            other => panic!("unexpected: {other:?}"),
        }
    }
}

fn changes() -> AttrChanges {
    AttrChanges { size: None, mode: None, uid: None, gid: None, atime: None, mtime: None }
}

fn answering(answer: PromptResponse) -> Answers {
    Answers { answer, calls: Rc::default() }
}

#[test]
fn always_allow_round_trips_files_through_the_real_backing_directory() {
    let prompter = answering(PromptResponse::AllowOnce);
    let calls = Rc::clone(&prompter.calls);
    let mut vault = Vault::new(prompter);

    vault.write_file("hello.txt", b"hello vault").unwrap();
    assert_eq!(vault.read_file("hello.txt").unwrap(), b"hello vault");
    assert_eq!(vault.files[b"/backing/hello.txt".as_slice()], b"hello vault");

    assert!(vault.list().contains(&"hello.txt".to_string()));

    vault.mkdir("sub").unwrap();
    assert!(vault.dirs.contains(&b"/backing/sub".to_vec()));
    vault.rmdir("sub").unwrap();
    assert!(!vault.dirs.contains(&b"/backing/sub".to_vec()));

    vault.rename("hello.txt", "renamed.txt").unwrap();
    assert!(vault.files.contains_key(b"/backing/renamed.txt".as_slice()));
    assert!(!vault.files.contains_key(b"/backing/hello.txt".as_slice()));
    assert_eq!(calls.get(), 1);
}

#[test]
fn always_allow_supports_truncate_chmod_and_touch() {
    let mut vault = Vault::new(answering(PromptResponse::AllowOnce));
    let ino = vault.write_file("note.txt", b"hello vault").unwrap();
    let when = Timestamp { secs: 1_700_000_000, nanos: 0 };
    let asked = AttrChanges {
        size: Some(5),
        mode: Some(0o600),
        atime: Some(TimeOrNow::SpecificTime(when)),
        mtime: Some(TimeOrNow::SpecificTime(when)),
        ..changes()
    };
    let gated = vault.fs.setattr(ino, asked).unwrap();
    assert_eq!(*gated.target(), UnixPath::new("/backing/note.txt"));
    match vault.allowed(gated).unwrap() {
        BackingOp::SetAttributes { path, mut run } => {
            assert_eq!(path, UnixPath::new("/backing/note.txt"));
            assert_eq!(run.step(Ok(())), Ok(AttrStage::Truncate(5)));
            vault.files.get_mut(&path.bytes).unwrap().truncate(5);
            assert_eq!(run.step(Ok(())), Ok(AttrStage::Chmod(0o600)));
            let set = Some(TimeOrNow::SpecificTime(when));
            assert_eq!(run.step(Ok(())), Ok(AttrStage::SetTimes(set, set)));
            assert_eq!(run.step(Ok(())), Ok(AttrStage::Stat));
        }
        other => panic!("unexpected: {other:?}"),
    }
    assert_eq!(vault.read_file("note.txt").unwrap(), b"hello");
    let attr = vault.fs.setattr_done(ino, Ok(meta(false, 5))).unwrap();
    assert_eq!((attr.ino, attr.size), (ino, 5));
    assert_eq!(vault.fs.setattr_done(ino, Err(Errno::Os(5))), Err(Errno::Os(5)));
}

#[test]
fn always_deny_blocks_open_with_permission_denied() {
    let mut vault = Vault::new(answering(PromptResponse::Deny));
    vault.files.insert(b"/backing/secret.txt".to_vec(), b"top secret".to_vec());

    assert_eq!(vault.read_file("secret.txt"), Err(Errno::EACCES));
}

#[test]
fn always_deny_blocks_mutating_operations_with_permission_denied() {
    let mut vault = Vault::new(answering(PromptResponse::Deny));
    vault.files.insert(b"/backing/existing.txt".to_vec(), b"data".to_vec());
    vault.dirs.push(b"/backing/existing_dir".to_vec());

    assert_eq!(vault.mkdir("new_dir"), Err(Errno::EACCES));
    assert_eq!(vault.unlink("existing.txt"), Err(Errno::EACCES));
    assert_eq!(vault.rmdir("existing_dir"), Err(Errno::EACCES));
    assert_eq!(vault.rename("existing.txt", "renamed.txt"), Err(Errno::EACCES));
    let ino = vault.lookup("existing.txt").unwrap();
    let chmod = vault.fs.setattr(ino, AttrChanges { mode: Some(0o600), ..changes() }).unwrap();
    assert_eq!(vault.allowed(chmod).unwrap_err(), Errno::EACCES);
    let touch = AttrChanges {
        atime: Some(TimeOrNow::Now),
        mtime: Some(TimeOrNow::Now),
        ..changes()
    };
    let touch = vault.fs.setattr(ino, touch).unwrap();
    assert_eq!(vault.allowed(touch).unwrap_err(), Errno::EACCES);

    assert!(vault.files.contains_key(b"/backing/existing.txt".as_slice()));
    assert!(vault.dirs.contains(&b"/backing/existing_dir".to_vec()));
    assert!(!vault.dirs.contains(&b"/backing/new_dir".to_vec()));
    assert!(!vault.files.contains_key(b"/backing/renamed.txt".as_slice()));
}

#[test]
fn allow_always_whitelists_the_binary_across_mounts() {
    let mut first = Vault::new(answering(PromptResponse::AllowAlways));
    first.write_file("a.txt", b"one").unwrap();
    let stored = first.fs.whitelist_handle().entries().clone();

    let mut second = Vault::new(PanicIfAsked);
    second.fs = PassthroughFs::new(
        UnixPath::new("/backing"),
        PanicIfAsked,
        OneProgram,
        Some(stored),
        500,
    );
    second.write_file("b.txt", b"two").unwrap();
    assert_eq!(second.files[b"/backing/b.txt".as_slice()], b"two");
}

#[test]
fn a_pending_access_prompt_does_not_freeze_the_rest_of_the_vault() {
    let mut vault = Vault::new(answering(PromptResponse::AllowOnce));
    vault.files.insert(b"/backing/gated.txt".to_vec(), b"secret".to_vec());
    vault.files.insert(b"/backing/probe.txt".to_vec(), b"x".to_vec());

    let ino = vault.lookup("gated.txt").unwrap();
    let gated = vault.fs.open(ino, AccessMode::ReadOnly).unwrap();
    let identity = vault.fs.resolver().resolve(7);
    // nothing is decided yet: someone has to be asked, and the filesystem is
    // not held meanwhile
    let pending = match vault.fs.let_in(gated, identity.clone(), Some(BINARY)) {
        Admission::Open(pending) => pending,
        other => panic!("unexpected: {other:?}"),
    };
    assert_eq!(*pending.target(), UnixPath::new("/backing/gated.txt"));
    assert_eq!(Some(pending.identity()), identity.as_ref());

    assert!(vault.list().contains(&"probe.txt".to_string()));
    let probe = vault.lookup("probe.txt").unwrap();
    assert!(matches!(vault.fs.getattr(probe), Ok(BackingOp::Stat { .. })));

    let (result, changed) = vault.fs.answered(pending, PromptResponse::AllowOnce, None, 0);
    assert!(!changed);
    match result.unwrap() {
        BackingOp::Open { path, .. } => assert_eq!(vault.files[&path.bytes], b"secret"),
        other => panic!("unexpected: {other:?}"),
    }
}

#[test]
fn whitelist_file_is_hidden_and_unwritable_through_the_mount() {
    let mut vault = Vault::new(answering(PromptResponse::AllowOnce));
    let hidden = ".attache-gate-whitelist.json";
    vault.files.insert(b"/backing/.attache-gate-whitelist.json".to_vec(), b"[]".to_vec());

    assert_eq!(vault.list(), vec![".", ".."]);

    assert_eq!(vault.read_file(hidden), Err(Errno::ENOENT));
    assert_eq!(vault.write_file(hidden, b"tampered"), Err(Errno::EACCES));
    assert_eq!(vault.unlink(hidden), Err(Errno::EACCES));

    vault.write_file("innocent.txt", b"data").unwrap();
    assert_eq!(vault.rename("innocent.txt", hidden), Err(Errno::EACCES));

    assert_eq!(vault.files[b"/backing/.attache-gate-whitelist.json".as_slice()], b"[]");
}

#[test]
fn the_whitelist_is_refused_under_every_request() {
    let mut vault = Vault::new(answering(PromptResponse::AllowOnce));
    let ino = vault.write_file("a", b"").unwrap();
    let hidden = WHITELIST_FILENAME.as_bytes();
    assert_eq!(vault.mkdir(WHITELIST_FILENAME), Err(Errno::EACCES));
    assert_eq!(vault.rmdir(WHITELIST_FILENAME), Err(Errno::EACCES));
    assert_eq!(
        vault.fs.symlink(ROOT, hidden, &UnixPath::new("x")).unwrap_err(),
        Errno::EACCES
    );
    assert_eq!(vault.fs.link(ino, ROOT, hidden).unwrap_err(), Errno::EACCES);
    assert_eq!(vault.rename(WHITELIST_FILENAME, "b"), Err(Errno::EACCES));
    assert!(is_protected(&UnixPath::new("/any/where/.attache-gate-whitelist.json")));
    assert!(!is_protected(&UnixPath::new("/any/.attache-gate-whitelist.json/x")));
    assert!(!is_protected(&UnixPath::new("/")));
}

#[test]
fn unknown_inodes_and_handles_are_refused() {
    let vault = Vault::new(answering(PromptResponse::AllowOnce));
    let fs = &vault.fs;
    assert_eq!(fs.lookup(9, b"x").unwrap_err(), Errno::ENOENT);
    assert_eq!(fs.getattr(9).unwrap_err(), Errno::ENOENT);
    assert_eq!(fs.readlink(9).unwrap_err(), Errno::ENOENT);
    assert_eq!(fs.setattr(9, changes()).unwrap_err(), Errno::ENOENT);
    assert_eq!(fs.readdir(9).unwrap_err(), Errno::ENOENT);
    assert_eq!(fs.open(9, AccessMode::ReadOnly).unwrap_err(), Errno::ENOENT);
    assert_eq!(fs.create(9, b"x", 0).unwrap_err(), Errno::ENOENT);
    assert_eq!(fs.mkdir(9, b"x").unwrap_err(), Errno::ENOENT);
    assert_eq!(fs.symlink(9, b"x", &UnixPath::new("y")).unwrap_err(), Errno::ENOENT);
    assert_eq!(fs.link(9, ROOT, b"x").unwrap_err(), Errno::ENOENT);
    assert_eq!(fs.link(ROOT, 9, b"x").unwrap_err(), Errno::ENOENT);
    assert_eq!(fs.unlink(9, b"x").unwrap_err(), Errno::ENOENT);
    assert_eq!(fs.rmdir(9, b"x").unwrap_err(), Errno::ENOENT);
    assert_eq!(fs.rename(9, b"x", ROOT, b"y").unwrap_err(), Errno::ENOENT);
    assert_eq!(fs.rename(ROOT, b"x", 9, b"y").unwrap_err(), Errno::ENOENT);
    assert_eq!(fs.read(1).unwrap_err(), Errno::EBADF);
    assert_eq!(fs.write(1).unwrap_err(), Errno::EBADF);
    assert_eq!(fs.path_of(9), None);
    assert_eq!(fs.path_of(ROOT), Some(UnixPath::new("/backing")));
}

#[test]
fn a_process_that_cannot_be_resolved_is_denied() {
    let mut vault = Vault::new(PanicIfAsked);
    let identity = vault.fs.resolver().resolve(8);
    assert_eq!(identity, None);
    assert_eq!(vault.fs.known(None, Some(BINARY)), Some(Decision::Deny));
    let verdict = vault.fs.authorize(None, &UnixPath::new("/backing/a"), None, None, 0);
    assert_eq!(verdict.decision, Decision::Deny);
    let gated = vault.fs.create(ROOT, b"a", 0o644).unwrap();
    let (result, changed) = vault.fs.permitted(gated, None, Some(BINARY), Some(BINARY), 0);
    assert_eq!(result.unwrap_err(), Errno::EACCES);
    assert!(!changed);
    let gated = vault.fs.create(ROOT, b"a", 0o644).unwrap();
    assert!(matches!(
        vault.fs.let_in(gated, None, Some(BINARY)),
        Admission::Decided(Err(Errno::EACCES))
    ));
}

#[test]
fn a_gated_request_is_decided_about_its_own_target() {
    let prompter = answering(PromptResponse::AllowAlways);
    let calls = Rc::clone(&prompter.calls);
    let mut vault = Vault::new(prompter);
    let identity = vault.fs.resolver().resolve(7);
    let gated = vault.fs.mkdir(ROOT, b"d").unwrap();
    let (result, changed) =
        vault.fs.permitted(gated, identity.as_ref(), Some(BINARY), Some(BINARY), 9);
    assert!(matches!(result, Ok(BackingOp::CreateDir { .. })));
    assert!(changed);
    // known from now on, so nobody is asked and nothing changes
    let gated = vault.fs.rmdir(ROOT, b"d").unwrap();
    let decided = vault.fs.let_in(gated, identity.clone(), Some(BINARY));
    assert!(matches!(decided, Admission::Decided(Ok(BackingOp::RemoveDir { .. }))));
    // other contents are another matter, and the answer may be another
    let gated = vault.fs.rmdir(ROOT, b"d").unwrap();
    match vault.fs.let_in(gated, identity, Some(b"swapped")) {
        Admission::Open(pending) => {
            let (result, changed) =
                vault.fs.answered(pending, PromptResponse::Deny, None, 10);
            assert_eq!(result.unwrap_err(), Errno::EACCES);
            assert!(!changed);
        }
        other => panic!("unexpected: {other:?}"),
    }
    assert_eq!(calls.get(), 1);
}

#[test]
fn space_is_asked_for_the_root_where_a_file_is_unknown() {
    let vault = Vault::new(answering(PromptResponse::AllowOnce));
    match vault.fs.statfs(99).unwrap() {
        BackingOp::StatFs { path } => assert_eq!(path, UnixPath::new("/backing")),
        other => panic!("unexpected: {other:?}"),
    }
    let odd: PassthroughFs<PanicIfAsked, OneProgram, ()> = PassthroughFs::new(
        UnixPath { bytes: b"/b\0x".to_vec() },
        PanicIfAsked,
        OneProgram,
        None,
        0,
    );
    assert_eq!(odd.statfs(ROOT).unwrap_err(), Errno::EINVAL);
}

#[test]
fn links_keep_what_they_hold_and_are_gated_on_their_new_name() {
    let mut vault = Vault::new(answering(PromptResponse::AllowOnce));
    let ino = vault.write_file("a", b"").unwrap();
    let link = vault.fs.symlink(ROOT, b"l", &UnixPath::new("../dangling")).unwrap();
    assert_eq!(*link.target(), UnixPath::new("/backing/l"));
    match vault.allowed(link).unwrap() {
        BackingOp::MakeSymlink { content, path } => {
            assert_eq!(content.bytes, b"../dangling");
            assert_eq!(path, UnixPath::new("/backing/l"));
        }
        other => panic!("unexpected: {other:?}"),
    }
    let hard = vault.fs.link(ino, ROOT, b"h").unwrap();
    assert_eq!(*hard.target(), UnixPath::new("/backing/h"));
    match vault.allowed(hard).unwrap() {
        BackingOp::HardLink { source, path } => {
            assert_eq!(source, UnixPath::new("/backing/a"));
            assert_eq!(path, UnixPath::new("/backing/h"));
        }
        other => panic!("unexpected: {other:?}"),
    }
    assert!(matches!(vault.fs.readlink(ino), Ok(BackingOp::ReadLink { .. })));
}

#[test]
fn access_modes_open_for_reading_and_writing() {
    let mut vault = Vault::new(answering(PromptResponse::AllowOnce));
    let ino = vault.write_file("a", b"").unwrap();
    for (mode, expected) in [
        (AccessMode::ReadOnly, (true, false)),
        (AccessMode::WriteOnly, (false, true)),
        (AccessMode::ReadWrite, (true, true)),
    ] {
        let gated = vault.fs.open(ino, mode).unwrap();
        match vault.allowed(gated).unwrap() {
            BackingOp::Open { read, write, .. } => assert_eq!((read, write), expected),
            other => panic!("unexpected: {other:?}"),
        }
    }
    assert_eq!(vault.fs.opened(Err(Errno::Os(13)), 0), Err(Errno::Os(13)));
}

#[test]
fn a_listing_goes_on_where_it_stopped() {
    let mut vault = Vault::new(answering(PromptResponse::AllowOnce));
    let dir = UnixPath::new("/backing");
    let found = || {
        vec![
            FoundEntry { name: b"d".to_vec(), kind: EntryKind::Directory },
            FoundEntry { name: WHITELIST_FILENAME.as_bytes().to_vec(), kind: EntryKind::Other },
            FoundEntry { name: b"l".to_vec(), kind: EntryKind::Symlink },
            FoundEntry { name: b"f".to_vec(), kind: EntryKind::Other },
        ]
    };
    let all = vault.fs.readdir_done(ROOT, &dir, found(), 0);
    let names: Vec<&[u8]> = all.iter().map(|line| line.name.as_slice()).collect();
    assert_eq!(names, vec![b".".as_slice(), b"..", b"d", b"l", b"f"]);
    let kinds: Vec<FileType> = all.iter().map(|line| line.kind).collect();
    assert_eq!(
        kinds,
        vec![
            FileType::Directory,
            FileType::Directory,
            FileType::Directory,
            FileType::Symlink,
            FileType::RegularFile,
        ]
    );
    let offsets: Vec<u64> = all.iter().map(|line| line.offset).collect();
    assert_eq!(offsets, vec![1, 2, 3, 4, 5]);
    let inodes: Vec<u64> = all.iter().map(|line| line.ino).collect();
    assert_eq!(inodes, vec![1, 1, 2, 3, 4]);

    let rest = vault.fs.readdir_done(ROOT, &dir, found(), all[2].offset);
    let names: Vec<&[u8]> = rest.iter().map(|line| line.name.as_slice()).collect();
    assert_eq!(names, vec![b"l".as_slice(), b"f"]);
    assert_eq!(rest[0].ino, 3);
    assert!(vault.fs.readdir_done(ROOT, &dir, found(), 5).is_empty());
    assert!(vault.fs.readdir_done(ROOT, &dir, found(), u64::MAX).is_empty());
}

#[test]
fn activity_is_seen_through_the_monitor() {
    let mut vault = Vault::new(answering(PromptResponse::AllowOnce));
    let seen = vault.fs.activity_monitor();
    assert_eq!((seen.last_activity_secs(), seen.open_handles()), (100, 0));
    let fh = vault.fs.opened(Ok(vec![]), 250).unwrap();
    assert_eq!(fh, 1);
    let seen = vault.fs.activity_monitor();
    assert_eq!((seen.last_activity_secs(), seen.open_handles()), (250, 1));
    assert_eq!(vault.fs.read_done(vec![1, 2, 3], Err(Errno::Os(5)), 260), Err(Errno::Os(5)));
    assert_eq!(vault.fs.activity_monitor().last_activity_secs(), 250);
    assert_eq!(vault.fs.read_done(vec![1, 2, 3], Ok(2), 270), Ok(vec![1, 2]));
    assert_eq!(vault.fs.activity_monitor().last_activity_secs(), 270);
    assert_eq!(vault.fs.write_done(Ok(9), 280), Ok(9));
    assert_eq!(vault.fs.write_done(Err(Errno::Os(28)), 290), Err(Errno::Os(28)));
    assert_eq!(vault.fs.activity_monitor().last_activity_secs(), 280);
    vault.fs.release(fh);
    assert_eq!(vault.fs.activity_monitor().open_handles(), 0);
    vault.fs.mark_activity(281);
    assert_eq!(vault.fs.activity_monitor().last_activity_secs(), 281);
    assert_eq!(now_secs(Some(5)), 5);
    assert_eq!(now_secs(None), 0);
}

#[test]
fn handles_are_fresh_and_released_one_by_one() {
    let mut files: HandleTable<&str> = HandleTable::new();
    let a = files.insert("a");
    let b = files.insert("b");
    assert_eq!((a, b), (1, 2));
    assert_eq!(files.count(), 2);
    files.remove(a);
    assert_eq!(files.count(), 1);
    files.remove(a);
    assert_eq!(files.count(), 1);
    assert!(files.get(a).is_none());
    assert_eq!(files.get(b), Some(&"b"));
    assert_eq!(files.insert("c"), 3);
    assert_eq!(files.count(), 2);
}

#[test]
fn attributes_are_shown_as_the_backing_file_has_them() {
    let file = BackingMeta {
        mode: 0o104755,
        nlink: 0x1_0000_0003,
        rdev: 0x2_0000_0001,
        blksize: 0x1_0000_1000,
        ..meta(false, 11)
    };
    let attr = attr_from_metadata(5, &file);
    assert_eq!((attr.ino, attr.size, attr.blocks), (5, 11, 8));
    assert_eq!(attr.kind, FileType::RegularFile);
    assert_eq!(attr.perm, 0o4755);
    assert_eq!((attr.nlink, attr.rdev, attr.blksize), (3, 1, 4096));
    assert_eq!((attr.uid, attr.gid, attr.flags), (1000, 100, 0));
    assert_eq!(attr.atime, Timestamp { secs: 1, nanos: 2 });
    assert_eq!(attr.mtime, Timestamp { secs: 3, nanos: 4 });
    assert_eq!(attr.ctime, attr.mtime);
    assert_eq!(attr.crtime, Timestamp { secs: 0, nanos: 0 });
    assert_eq!(attr_from_metadata(5, &meta(true, 0)).kind, FileType::Directory);
    let link = BackingMeta { is_symlink: true, ..meta(false, 0) };
    assert_eq!(attr_from_metadata(5, &link).kind, FileType::Symlink);
}

#[test]
fn a_change_of_attributes_stops_at_the_first_failure() {
    let mut run = AttrRun::new(AttrChanges { size: Some(1), uid: Some(0), ..changes() });
    assert_eq!(run.step(Ok(())), Ok(AttrStage::Truncate(1)));
    assert_eq!(run.step(Err(Errno::Os(13))), Err(Errno::Os(13)));
    assert_eq!(run.step(Ok(())), Ok(AttrStage::Chown(0, KEEP_ID)));
    assert_eq!(run.step(Ok(())), Ok(AttrStage::Stat));
    assert_eq!(run.step(Ok(())), Ok(AttrStage::Stat));
    assert_eq!(chown_ids(None, Some(7)), (u32::MAX, 7));
}

#[test]
fn a_time_that_is_not_given_stays() {
    let now = Timestamp { secs: 9, nanos: 9 };
    let old = Timestamp { secs: 1, nanos: 1 };
    assert_eq!(new_time(None, old, now), old);
    assert_eq!(new_time(Some(TimeOrNow::Now), old, now), now);
    assert_eq!(filetime_from(TimeOrNow::SpecificTime(old), now), old);
}

#[test]
fn every_inode_stays_below_the_backing_directory() {
    let mut vault = Vault::new(answering(PromptResponse::AllowOnce));
    vault.mkdir("sub").unwrap();
    let a = vault.write_file("a", b"1").unwrap();
    vault.rename("a", "b").unwrap();
    vault.list();
    vault.unlink("b").unwrap();
    vault.rmdir("sub").unwrap();
    assert_eq!(vault.fs.path_of(ROOT), Some(UnixPath::new("/backing")));
    assert_eq!(vault.fs.path_of(a), None);
    for ino in 2..10 {
        if let Some(path) = vault.fs.path_of(ino) {
            assert!(path.bytes.starts_with(b"/backing/"));
        }
    }
    assert_eq!(vault.fs.room(), u64::MAX - 4);
}

#[test]
fn a_request_is_decided_by_digest_as_by_contents() {
    let mut vault = Vault::new(answering(PromptResponse::Deny));
    let identity = vault.fs.resolver().resolve(7);
    let sha256 = hex_digest(BINARY);
    let gated = vault.fs.mkdir(ROOT, b"d").unwrap();
    let pending = match vault.fs.let_in_by_digest(gated, identity.clone(), Some(&sha256)) {
        Admission::Open(pending) => pending,
        other => panic!("unexpected: {other:?}"),
    };
    let (result, changed) = vault.fs.answered_by_digest(
        pending,
        PromptResponse::AllowAlways,
        Some(sha256.clone()),
        9,
    );
    assert!(matches!(result, Ok(BackingOp::CreateDir { .. })));
    assert!(changed);
    let gated = vault.fs.rmdir(ROOT, b"d").unwrap();
    assert!(matches!(
        vault.fs.let_in_by_digest(gated, identity.clone(), Some(&sha256)),
        Admission::Decided(Ok(BackingOp::RemoveDir { .. }))
    ));
    let gated = vault.fs.rmdir(ROOT, b"d").unwrap();
    assert!(matches!(vault.fs.let_in_by_digest(gated, identity, None), Admission::Open(_)));
    let gated = vault.fs.rmdir(ROOT, b"d").unwrap();
    assert!(matches!(
        vault.fs.let_in_by_digest(gated, None, Some(&sha256)),
        Admission::Decided(Err(Errno::EACCES))
    ));
}
