use attache::copy_tree::{CopyRun, CopyStep, FoundItem};
use attache::gate_args;
use attache::import::{
    bundled_binaries, cipher_dir, manifest_file, run, vault_dir, ImportError, ImportOptions,
    ImportRun, BINARY_MODE,
};
use attache::import_args;
use attache::manifest::{sha256_hex, ParseError, VerifyReport};
use attache::path::UnixPath;

fn p(s: &str) -> UnixPath {
    UnixPath::new(s)
}

fn manifest_of(entries: &[(&str, &[u8])]) -> String {
    entries.iter().map(|(name, content)| format!("{}  {name}\n", sha256_hex(content))).collect()
}

fn strings(args: &[&str]) -> Vec<String> {
    args.iter().map(|s| s.to_string()).collect()
}

#[test]
fn happy_path_verifies_copies_attache_and_installs_binaries() {
    let entries: [(&str, &[u8]); 2] = [("a.txt", b"hello"), ("sub/b.txt", b"world")];
    let (source, dest) = (p("/disc"), p("/home/u"));
    let opts = ImportOptions { source_dir: &source, dest_home: &dest, force: false };

    let plan = run(
        &opts,
        Ok(&manifest_of(&entries)),
        &[Some(b"hello".to_vec()), Some(b"world".to_vec())],
        None,
    )
    .unwrap();

    assert_eq!(plan.vault, p("/disc/attache"));
    assert_eq!(plan.binaries.len(), 5);
    for (copy, name) in plan.binaries.iter().zip([
        "gocryptfs",
        "attache-gate",
        "attache-mount-helper",
        "att",
        "install-mount-helper.sh",
    ]) {
        assert_eq!(copy.from, p("/disc/bin").join(name.as_bytes()));
        assert_eq!(copy.to, p("/home/u/.local/bin").join(name.as_bytes()));
    }
    assert_eq!(BINARY_MODE, 0o755, "should be installed as 0755");
    assert!(
        !plan.binaries.iter().any(|copy| copy.to == p("/home/u/.local/bin/attache-import")),
        "the installer itself should not be installed"
    );

    let summary = plan.installed(Ok(())).unwrap();
    assert_eq!(summary.verified_files, 2);
    assert_eq!(summary.cipherdir, dest.join(b".attache"));
    assert_eq!(summary.bin_dir, dest.join(b".local").join(b"bin"));
}

#[test]
fn refuses_to_clobber_an_existing_non_empty_attache_without_force() {
    let entries: [(&str, &[u8]); 1] = [("a.txt", b"hello")];
    let text = manifest_of(&entries);
    let files = [Some(b"hello".to_vec())];
    let (source, dest) = (p("/disc"), p("/home/u"));

    let refused = run(
        &ImportOptions { source_dir: &source, dest_home: &dest, force: false },
        Ok(&text),
        &files,
        Some(true),
    )
    .unwrap_err();
    assert!(matches!(refused, ImportError::DestinationRefused));

    let plan = run(
        &ImportOptions { source_dir: &source, dest_home: &dest, force: true },
        Ok(&text),
        &files,
        Some(true),
    )
    .unwrap();
    assert_eq!(plan.installed(Ok(())).unwrap().verified_files, 1);
}

#[test]
fn integrity_comes_before_the_destination() {
    let entries: [(&str, &[u8]); 3] = [("a", b"1"), ("b", b"2"), ("c", b"3")];
    let (source, dest) = (p("/disc"), p("/home/u"));
    let failed = run(
        &ImportOptions { source_dir: &source, dest_home: &dest, force: false },
        Ok(&manifest_of(&entries)),
        &[Some(b"1".to_vec()), None, Some(b"x".to_vec())],
        Some(true),
    )
    .unwrap_err();
    assert_eq!(
        failed.message(),
        "attache integrity check failed:\n  missing: b\n  mismatched checksum: c\n"
    );
    match failed {
        ImportError::IntegrityFailed(report) => {
            assert_eq!(report.ok, vec![p("a")]);
            assert_eq!(report.missing, vec![p("b")]);
            assert_eq!(report.mismatched, vec![p("c")]);
        }
        other => panic!("unexpected: {other:?}"),
    }
}

#[test]
fn a_manifest_that_cannot_be_used_ends_the_import() {
    let (source, dest) = (p("/disc"), p("/home/u"));
    let opts = ImportOptions { source_dir: &source, dest_home: &dest, force: true };
    let malformed = run(&opts, Ok("\nnonsense"), &[], None).unwrap_err();
    assert_eq!(malformed.message(), "malformed MANIFEST.sha256 at line 2: nonsense");
    let unread = run(&opts, Err("not found".to_string()), &[], None).unwrap_err();
    assert_eq!(unread.message(), "I/O error: not found");
}

#[test]
fn errors_are_put_in_words() {
    assert_eq!(
        ImportError::DestinationRefused.message(),
        "destination already has an Attache installed; pass --force to overwrite, or choose a different --dest-home"
    );
    assert_eq!(
        ImportError::IntegrityFailed(VerifyReport::default()).message(),
        "attache integrity check failed:\n"
    );
    let parse = ParseError { line_number: 12, line: "x".to_string() };
    assert_eq!(
        ImportError::ManifestParse(parse).message(),
        "malformed MANIFEST.sha256 at line 12: x"
    );
}

#[test]
fn files_are_read_in_the_order_of_the_manifest() {
    let entries: [(&str, &[u8]); 2] = [("a", b"1"), ("sub/b", b"2")];
    let (source, dest) = (p("/disc"), p("/home/u"));
    let opts = ImportOptions { source_dir: &source, dest_home: &dest, force: false };
    let mut import = ImportRun::begin(&opts, Ok(&manifest_of(&entries))).unwrap();
    assert_eq!(import.next_file(), Some(p("/disc/attache/a")));
    import.file_read(Some(b"1"));
    assert_eq!(import.next_file(), Some(p("/disc/attache/sub/b")));
    import.file_read(Some(b"2"));
    assert_eq!(import.next_file(), None);
    let plan = import.finish(Some(false)).unwrap();
    assert_eq!(plan.cipherdir, p("/home/u/.attache"));
    let failed = plan.installed(Err("disk full".to_string())).unwrap_err();
    assert_eq!(failed.message(), "I/O error: disk full");
}

#[test]
fn paths_of_a_disc_and_a_home() {
    assert_eq!(manifest_file(&p("/disc")), p("/disc/MANIFEST.sha256"));
    assert_eq!(vault_dir(&p("/disc")), p("/disc/attache"));
    assert_eq!(cipher_dir(&p("/home/u")), p("/home/u/.attache"));
    assert_eq!(bundled_binaries().len(), 5);
}

#[test]
fn a_tree_is_copied_directory_by_directory() {
    let mut copy = CopyRun::new(&p("/a"), &p("/b"));
    let mut log: Vec<String> = vec![];
    while let Some(step) = copy.next() {
        match step {
            CopyStep::Directory { from, to } => {
                log.push(format!("mkdir {}", to.display()));
                let items = match from.display().as_str() {
                    "/a" => vec![
                        FoundItem { name: b"sub".to_vec(), directory: true },
                        FoundItem { name: b"last".to_vec(), directory: false },
                    ],
                    "/a/sub" => vec![FoundItem { name: b"x".to_vec(), directory: false }],
                    other => panic!("unexpected: {other}"),
                };
                copy.found(&from, &to, &items);
            }
            CopyStep::File { from, to } => {
                log.push(format!("cp {} {}", from.display(), to.display()));
            }
        }
    }
    assert_eq!(
        log,
        vec!["mkdir /b", "mkdir /b/sub", "cp /a/sub/x /b/sub/x", "cp /a/last /b/last"]
    );
}

#[test]
fn importer_arguments_are_read() {
    let args = import_args::parse_args(&strings(&["imp", "/disc"])).unwrap();
    assert_eq!(args.source_dir, p("/disc"));
    assert_eq!(args.dest_home, None);
    assert!(!args.force);
    let args = import_args::parse_args(&strings(&[
        "imp", "/disc", "--force", "--dest-home", "/x", "--dest-home", "--force",
    ]))
    .unwrap();
    assert_eq!(args.dest_home, Some(p("--force")));
    assert!(args.force);
    assert!(import_args::parse_args(&strings(&["imp", "/disc", "--dest-home"])).is_none());
    assert!(import_args::parse_args(&strings(&["imp", "/disc", "--other"])).is_none());
    assert!(import_args::parse_args(&strings(&["imp"])).is_none());
    assert!(import_args::parse_args(&[]).is_none());
}

#[test]
fn the_destination_is_the_home_unless_told() {
    let (told, home) = (p("/told"), p("/home/u"));
    assert_eq!(
        import_args::destination_home(Some(told.clone()), Some(home.clone())),
        Some(told)
    );
    assert_eq!(import_args::destination_home(None, Some(home.clone())), Some(home));
    assert_eq!(import_args::destination_home(None, None), None);
}

#[test]
fn gate_arguments_are_read() {
    assert_eq!(
        gate_args::parse_args(&strings(&["gate", "/backing", "/mnt"])),
        Some((p("/backing"), p("/mnt")))
    );
    assert_eq!(gate_args::parse_args(&strings(&["gate", "/backing"])), None);
    assert_eq!(gate_args::parse_args(&strings(&["gate", "/a", "/b", "/c"])), None);
}

#[test]
fn threads_are_clamped() {
    assert_eq!(gate_args::worker_threads(None), 4);
    assert_eq!(gate_args::worker_threads(Some(1)), 4);
    assert_eq!(gate_args::worker_threads(Some(8)), 8);
    assert_eq!(gate_args::worker_threads(Some(64)), 16);
}
