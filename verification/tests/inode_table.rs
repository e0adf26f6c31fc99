use attache::inode_table::{InodeTable, ROOT};
use attache::path::UnixPath;

fn p(s: &str) -> UnixPath {
    UnixPath::new(s)
}

#[test]
fn root_is_inode_one() {
    let table = InodeTable::new(p("/backing"));
    assert_eq!(ROOT, 1);
    assert_eq!(table.path(ROOT), Some(p("/backing")));
}

#[test]
fn allocates_a_fresh_inode_for_a_new_path() {
    let mut table = InodeTable::new(p("/backing"));

    let ino = table.ino_for(p("/backing/a.txt"));

    assert_ne!(ino, ROOT);
    assert_eq!(table.path(ino), Some(p("/backing/a.txt")));
}

#[test]
fn repeated_lookup_of_the_same_path_reuses_its_inode() {
    let mut table = InodeTable::new(p("/backing"));

    let first = table.ino_for(p("/backing/a.txt"));
    let second = table.ino_for(p("/backing/a.txt"));

    assert_eq!(first, second);
}

#[test]
fn different_paths_get_different_inodes() {
    let mut table = InodeTable::new(p("/backing"));

    let a = table.ino_for(p("/backing/a.txt"));
    let b = table.ino_for(p("/backing/b.txt"));

    assert_ne!(a, b);
}

#[test]
fn rename_keeps_the_same_inode_under_the_new_path() {
    let mut table = InodeTable::new(p("/backing"));
    let ino = table.ino_for(p("/backing/a.txt"));

    table.rename(&p("/backing/a.txt"), p("/backing/b.txt"));

    assert_eq!(table.path(ino), Some(p("/backing/b.txt")));
}

#[test]
fn forget_path_removes_it_from_the_table() {
    let mut table = InodeTable::new(p("/backing"));
    let ino = table.ino_for(p("/backing/a.txt"));

    table.forget_path(&p("/backing/a.txt"));

    assert_eq!(table.path(ino), None);
}

#[test]
fn inodes_are_counted_from_two_and_never_reused() {
    let mut table = InodeTable::new(p("/backing"));
    assert_eq!(table.ino_for(p("/backing/a")), 2);
    assert_eq!(table.ino_for(p("/backing/b")), 3);
    table.forget_path(&p("/backing/a"));
    assert_eq!(table.ino_for(p("/backing/a")), 4);
    assert_eq!(table.ino_for(p("/backing")), ROOT);
    assert_eq!(table.room(), u64::MAX - 5);
}

#[test]
fn two_spellings_of_a_path_share_an_inode() {
    let mut table = InodeTable::new(p("/backing"));
    let ino = table.ino_for(p("/backing/a//b"));
    assert_eq!(table.ino_for(p("/backing/./a/b/")), ino);
}

#[test]
fn rename_onto_a_known_path_takes_its_place() {
    let mut table = InodeTable::new(p("/backing"));
    let a = table.ino_for(p("/backing/a"));
    let b = table.ino_for(p("/backing/b"));
    table.rename(&p("/backing/a"), p("/backing/b"));
    assert_eq!(table.ino_for(p("/backing/b")), a);
    assert_eq!(table.path(b), Some(p("/backing/b")));
}

#[test]
fn rename_and_forget_of_an_unknown_path_change_nothing() {
    let mut table = InodeTable::new(p("/backing"));
    let a = table.ino_for(p("/backing/a"));
    table.rename(&p("/backing/x"), p("/backing/y"));
    table.forget_path(&p("/backing/x"));
    assert_eq!(table.path(a), Some(p("/backing/a")));
    assert_eq!(table.ino_for(p("/backing/y")), 3);
}
