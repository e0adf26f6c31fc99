use attache::path::UnixPath;
use attache::process_info::ProcessIdentity;
use attache::whitelist::{hash_file, Whitelist, WhitelistEntry, WHITELIST_FILENAME};

fn backing() -> UnixPath {
    UnixPath::new("/tmp/backing")
}

fn bin(name: &str) -> UnixPath {
    backing().join(name.as_bytes())
}

fn identity(path: UnixPath) -> ProcessIdentity {
    ProcessIdentity { path, comm: "test".to_string() }
}

fn approve(whitelist: &mut Whitelist, path: UnixPath, contents: &[u8]) {
    let added: Result<(), ()> = whitelist.add(&identity(path), Ok(contents), 1_700_000_000);
    assert_eq!(added, Ok(()));
}

/// What a later load finds of what is stored now.
fn reload(whitelist: &Whitelist) -> Whitelist {
    let stored: Vec<WhitelistEntry> = whitelist.entries().clone();
    Whitelist::load(&backing(), Some(stored))
}

#[test]
fn unknown_binary_is_not_allowed() {
    let whitelist = Whitelist::load(&backing(), None);

    assert!(!whitelist.is_allowed(&identity(bin("cat")), Some(b"binary-a")));
}

#[test]
fn approved_binary_is_allowed() {
    let mut whitelist = Whitelist::load(&backing(), None);

    approve(&mut whitelist, bin("cat"), b"binary-a");

    assert!(whitelist.is_allowed(&identity(bin("cat")), Some(b"binary-a")));
}

#[test]
fn approval_survives_reload_from_disk() {
    let mut whitelist = Whitelist::load(&backing(), None);
    approve(&mut whitelist, bin("cat"), b"binary-a");

    let reloaded = reload(&whitelist);

    assert!(reloaded.is_allowed(&identity(bin("cat")), Some(b"binary-a")));
}

#[test]
fn swapped_binary_at_the_same_path_loses_approval() {
    let mut whitelist = Whitelist::load(&backing(), None);
    approve(&mut whitelist, bin("cat"), b"binary-a");

    assert!(!whitelist.is_allowed(&identity(bin("cat")), Some(b"malicious-payload")));
}

#[test]
fn same_name_different_path_is_not_allowed() {
    let mut whitelist = Whitelist::load(&backing(), None);
    approve(&mut whitelist, bin("cat"), b"binary-a");

    let impostor = UnixPath::new("/tmp/impostor").join(b"cat");

    assert!(!whitelist.is_allowed(&identity(impostor), Some(b"binary-a")));
}

#[test]
fn clear_removes_entries_in_memory_and_on_disk() {
    let mut whitelist = Whitelist::load(&backing(), None);
    approve(&mut whitelist, bin("cat"), b"binary-a");
    assert!(whitelist.is_allowed(&identity(bin("cat")), Some(b"binary-a")));

    whitelist.clear();

    assert!(!whitelist.is_allowed(&identity(bin("cat")), Some(b"binary-a")));
    assert_eq!(whitelist.entries().len(), 0);
    let reloaded = reload(&whitelist);
    assert!(!reloaded.is_allowed(&identity(bin("cat")), Some(b"binary-a")));
}

#[test]
fn unreadable_binary_is_neither_allowed_nor_recorded() {
    let mut whitelist = Whitelist::load(&backing(), None);
    approve(&mut whitelist, bin("cat"), b"binary-a");
    assert!(!whitelist.is_allowed(&identity(bin("cat")), None));

    let r: Result<(), &str> = whitelist.add(&identity(bin("vim")), Err("no such file"), 5);
    assert_eq!(r, Err("no such file"));
    assert_eq!(whitelist.entries().len(), 1);
}

#[test]
fn approving_again_replaces_the_entry() {
    let mut whitelist = Whitelist::load(&backing(), None);
    approve(&mut whitelist, bin("cat"), b"one");
    approve(&mut whitelist, bin("vim"), b"vim");
    approve(&mut whitelist, bin("cat"), b"two");
    assert_eq!(whitelist.entries().len(), 2);
    assert_eq!(whitelist.entries()[0].path, bin("vim"));
    assert_eq!(whitelist.entries()[1].path, bin("cat"));
    assert!(!whitelist.is_allowed(&identity(bin("cat")), Some(b"one")));
    assert!(whitelist.is_allowed(&identity(bin("cat")), Some(b"two")));
    assert!(whitelist.is_allowed(&identity(bin("vim")), Some(b"vim")));
}

#[test]
fn the_first_of_two_stored_entries_counts() {
    let entry = |contents: &[u8]| WhitelistEntry {
        path: bin("cat"),
        comm: "cat".to_string(),
        sha256: hash_file::<()>(Ok(contents)).unwrap(),
        added_at: 0,
    };
    let whitelist = Whitelist::load(&backing(), Some(vec![entry(b"one"), entry(b"two")]));
    assert!(whitelist.is_allowed(&identity(bin("cat")), Some(b"one")));
    assert!(!whitelist.is_allowed(&identity(bin("cat")), Some(b"two")));
}

#[test]
fn the_digest_is_the_published_one() {
    assert_eq!(
        hash_file::<()>(Ok(b"abc")),
        Ok("ba7816bf8f01cfea414140de5dae2223b00361a396177a9cb410ff61f20015ad".to_string())
    );
    assert_eq!(
        hash_file::<()>(Ok(b"")),
        Ok("e3b0c44298fc1c149afbf4c8996fb92427ae41e4649b934ca495991b7852b855".to_string())
    );
    assert_eq!(hash_file(Err(13)), Err(13));
}

#[test]
fn rows_hold_digest_time_name_and_path() {
    let mut whitelist = Whitelist::load(&backing(), None);
    assert_eq!(whitelist.tsv(), "");
    approve(&mut whitelist, bin("cat"), b"abc");
    assert_eq!(
        whitelist.tsv(),
        "ba7816bf8f01cfea414140de5dae2223b00361a396177a9cb410ff61f20015ad\t1700000000\ttest\t/tmp/backing/cat\n"
    );
}

#[test]
fn the_whitelist_is_written_beside_its_file_first() {
    let plan = Whitelist::load(&backing(), None).persist();
    assert_eq!(WHITELIST_FILENAME, ".attache-gate-whitelist.json");
    assert_eq!(plan.file, bin(".attache-gate-whitelist.json"));
    assert_eq!(plan.temporary, bin(".attache-gate-whitelist.json.tmp"));
}
