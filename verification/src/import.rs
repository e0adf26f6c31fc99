//! Importing a vault from a disc: its files are verified against the manifest
//! on the disc, and are installed only when every one of them is intact and
//! no other vault would be overwritten by accident.

use crate::digest;
use crate::install;
use crate::manifest;
use crate::manifest::ManifestEntry;
use crate::manifest::ParseError;
use crate::manifest::VerifyReport;
use crate::path;
use crate::path::UnixPath;
use crate::text;
use crate::whitelist;
use vstd::prelude::*;
use vstd::string::*;
use vstd::utf8::*;

verus! {

/// Where to import from and to.
pub struct ImportOptions<'a> {
    pub source_dir: &'a UnixPath,
    pub dest_home: &'a UnixPath,
    /// Whether a vault that is already there is overwritten.
    pub force: bool,
}

/// What was imported.
#[derive(Debug)]
pub struct ImportSummary {
    pub verified_files: usize,
    pub cipherdir: UnixPath,
    pub bin_dir: UnixPath,
}

/// Why nothing, or not everything, was imported.
#[derive(Debug)]
pub enum ImportError {
    ManifestParse(ParseError),
    IntegrityFailed(VerifyReport),
    DestinationRefused,
    Io(String),
}

/// One line for each path.
pub open spec fn path_lines(label: Seq<char>, paths: Seq<Seq<u8>>) -> Seq<char>
    decreases paths.len(),
{
    if paths.len() == 0 {
        Seq::empty()
    } else {
        path_lines(label, paths.drop_last()) + label + path::utf8_lossy(paths.last()) + "\n"@
    }
}

fn push_path_lines(s: &mut String, label: &str, paths: &Vec<UnixPath>)
    ensures
        final(s)@ == old(s)@ + path_lines(label@, manifest::path_views(paths@)),
{
    let ghost all = manifest::path_views(paths@);
    let mut i: usize = 0;
    assert(all.take(0) =~= Seq::<Seq<u8>>::empty());
    assert(s@ =~= old(s)@ + path_lines(label@, all.take(0)));
    while i < paths.len()
        invariant
            i <= paths@.len(),
            all == manifest::path_views(paths@),
            s@ == old(s)@ + path_lines(label@, all.take(i as int)),
        decreases paths@.len() - i,
    {
        assert(all.take(i + 1).drop_last() =~= all.take(i as int));
        s.append(label);
        s.append(paths[i].display().as_str());
        s.append("\n");
        i += 1;
        assert(s@ =~= old(s)@ + path_lines(label@, all.take(i as int)));
    }
    assert(all.take(all.len() as int) =~= all);
}

impl ImportError {
    /// The error in words.
    pub open spec fn words(&self) -> Seq<char> {
        match *self {
            ImportError::ManifestParse(e) => "malformed MANIFEST.sha256 at line "@ + text::decimal(
                e.line_number as nat,
            ) + ": "@ + e.line@,
            ImportError::IntegrityFailed(report) => "attache integrity check failed:\n"@
                + path_lines("  missing: "@, report@.missing) + path_lines(
                "  mismatched checksum: "@,
                report@.mismatched,
            ),
            ImportError::DestinationRefused =>
                "destination already has an Attache installed; pass --force to overwrite, or choose a different --dest-home"@,
            ImportError::Io(e) => "I/O error: "@ + e@,
        }
    }

    /// The error in words.
    pub fn message(&self) -> (r: String)
        ensures
            r@ == self.words(),
    {
        match self {
            ImportError::ManifestParse(e) => {
                let mut s = "malformed MANIFEST.sha256 at line ".to_owned();
                text::push_decimal(&mut s, e.line_number as u64);
                s.append(": ");
                s.append(e.line.as_str());
                s
            },
            ImportError::IntegrityFailed(report) => {
                let mut s = "attache integrity check failed:\n".to_owned();
                push_path_lines(&mut s, "  missing: ", &report.missing);
                push_path_lines(&mut s, "  mismatched checksum: ", &report.mismatched);
                s
            },
            ImportError::DestinationRefused =>
                "destination already has an Attache installed; pass --force to overwrite, or choose a different --dest-home".to_owned(),
            ImportError::Io(e) => {
                let mut s = "I/O error: ".to_owned();
                s.append(e.as_str());
                s
            },
        }
    }
}

/// The names of the binaries bundled on the disc. The importer is not one of
/// them: there is no reason to install the installer.
pub open spec fn bundled() -> Seq<Seq<char>> {
    seq![
        "gocryptfs"@,
        "attache-gate"@,
        "attache-mount-helper"@,
        "att"@,
        "install-mount-helper.sh"@,
    ]
}

/// The names of the binaries bundled on the disc under `bin/`, which are
/// installed into `<dest-home>/.local/bin`.
pub fn bundled_binaries() -> (r: Vec<String>)
    ensures
        text::texts(r@) == bundled(),
{
    let mut r: Vec<String> = Vec::new();
    r.push("gocryptfs".to_owned());
    r.push("attache-gate".to_owned());
    r.push("attache-mount-helper".to_owned());
    r.push("att".to_owned());
    r.push("install-mount-helper.sh".to_owned());
    assert(text::texts(r@) =~= bundled());
    r
}

/// The mode of an installed binary.
pub const BINARY_MODE: u32 = 0o755;

/// A path below another, where `name` is a text.
pub open spec fn below(base: Seq<u8>, name: Seq<char>) -> Seq<u8> {
    path::joined(base, encode_utf8(name))
}

/// Where the manifest is on a disc.
pub fn manifest_file(source_dir: &UnixPath) -> (r: UnixPath)
    ensures
        r@ == below(source_dir@, "MANIFEST.sha256"@),
{
    source_dir.join("MANIFEST.sha256".as_bytes())
}

/// Where the vault is on a disc.
pub fn vault_dir(source_dir: &UnixPath) -> (r: UnixPath)
    ensures
        r@ == below(source_dir@, "attache"@),
{
    source_dir.join("attache".as_bytes())
}

/// Where a vault is installed.
pub fn cipher_dir(home: &UnixPath) -> (r: UnixPath)
    ensures
        r@ == below(home@, ".attache"@),
{
    home.join(".attache".as_bytes())
}

/// Where the binaries are installed.
pub open spec fn binaries_dir(home: Seq<u8>) -> Seq<u8> {
    below(below(home, ".local"@), "bin"@)
}

/// A file to copy.
#[derive(Debug)]
pub struct FileCopy {
    pub from: UnixPath,
    pub to: UnixPath,
}

/// What is to be installed from a disc whose files are verified: the tree at
/// `vault` is copied to `cipherdir`, `bin_dir` is made, and each of `binaries`
/// is copied and becomes executable.
#[derive(Debug)]
pub struct ImportPlan {
    pub vault: UnixPath,
    pub cipherdir: UnixPath,
    pub bin_dir: UnixPath,
    pub binaries: Vec<FileCopy>,
    pub verified_files: usize,
}

impl ImportPlan {
    /// Whether this is the plan for an import of `n` files from `source` to
    /// the home directory `home`.
    pub open spec fn installs(&self, source: Seq<u8>, home: Seq<u8>, n: nat) -> bool {
        &&& self.vault@ == below(source, "attache"@)
        &&& self.cipherdir@ == below(home, ".attache"@)
        &&& self.bin_dir@ == binaries_dir(home)
        &&& self.binaries@.len() == bundled().len()
        &&& forall|i: int|
            0 <= i < bundled().len() ==> (#[trigger] self.binaries@[i]).from@ == below(
                below(source, "bin"@),
                bundled()[i],
            ) && self.binaries@[i].to@ == below(binaries_dir(home), bundled()[i])
        &&& self.verified_files == n
    }

    /// What comes of an import that was carried out.
    pub fn installed(self, outcome: Result<(), String>) -> (r: Result<ImportSummary, ImportError>)
        ensures
            match outcome {
                Ok(_) => {
                    &&& r is Ok
                    &&& r->Ok_0.verified_files == self.verified_files
                    &&& r->Ok_0.cipherdir == self.cipherdir
                    &&& r->Ok_0.bin_dir == self.bin_dir
                },
                Err(e) => r == Err::<ImportSummary, ImportError>(ImportError::Io(e)),
            },
    {
        match outcome {
            Ok(_) => Ok(
                ImportSummary {
                    verified_files: self.verified_files,
                    cipherdir: self.cipherdir,
                    bin_dir: self.bin_dir,
                },
            ),
            Err(e) => Err(ImportError::Io(e)),
        }
    }
}

fn plan(source_dir: &UnixPath, dest_home: &UnixPath, verified_files: usize) -> (r: ImportPlan)
    ensures
        r.installs(source_dir@, dest_home@, verified_files as nat),
{
    let bin_src = source_dir.join("bin".as_bytes());
    let bin_dir = dest_home.join(".local".as_bytes()).join("bin".as_bytes());
    let names = bundled_binaries();
    let mut binaries: Vec<FileCopy> = Vec::new();
    let mut i: usize = 0;
    while i < names.len()
        invariant
            i <= names@.len(),
            text::texts(names@) == bundled(),
            bin_src@ == below(source_dir@, "bin"@),
            bin_dir@ == binaries_dir(dest_home@),
            binaries@.len() == i,
            forall|j: int|
                0 <= j < i ==> (#[trigger] binaries@[j]).from@ == below(
                    below(source_dir@, "bin"@),
                    bundled()[j],
                ) && binaries@[j].to@ == below(binaries_dir(dest_home@), bundled()[j]),
        decreases names@.len() - i,
    {
        assert(names@[i as int]@ == bundled()[i as int]);
        let name = names[i].as_str().as_bytes();
        binaries.push(FileCopy { from: bin_src.join(name), to: bin_dir.join(name) });
        i += 1;
    }
    assert(names@.len() == text::texts(names@).len());
    ImportPlan {
        vault: vault_dir(source_dir),
        cipherdir: cipher_dir(dest_home),
        bin_dir,
        binaries,
        verified_files,
    }
}

/// Whether a report finds nothing missing and nothing mismatched.
pub open spec fn is_clean(r: manifest::ReportView) -> bool {
    r.missing.len() == 0 && r.mismatched.len() == 0
}

/// Whether `r` is what comes of an import from `source` to the home directory
/// `home`, where the manifest says `entries`, the files that it covers hold
/// `files`, and listing the destination found something there or not.
pub open spec fn decided(
    source: Seq<u8>,
    home: Seq<u8>,
    force: bool,
    entries: Seq<manifest::ManifestView>,
    files: Seq<Option<Seq<u8>>>,
    has_entries: Option<bool>,
    r: Result<ImportPlan, ImportError>,
) -> bool {
    let report = manifest::report_of(entries, files);
    if !is_clean(report) {
        r matches Err(ImportError::IntegrityFailed(found)) && found@ == report
    } else if install::destination(has_entries, force)
        == install::DestinationStatus::NonEmptyRefused {
        r matches Err(ImportError::DestinationRefused)
    } else {
        r matches Ok(plan) && plan.installs(source, home, report.ok.len())
    }
}

/// An import under way: the files that the manifest covers are read one after
/// the other.
pub struct ImportRun {
    source_dir: UnixPath,
    dest_home: UnixPath,
    force: bool,
    entries: Vec<ManifestEntry>,
    next: usize,
    report: VerifyReport,
    seen: Ghost<Seq<Option<Seq<u8>>>>,
}

impl ImportRun {
    pub closed spec fn source(&self) -> Seq<u8> {
        self.source_dir@
    }

    pub closed spec fn home(&self) -> Seq<u8> {
        self.dest_home@
    }

    pub closed spec fn forced(&self) -> bool {
        self.force
    }

    /// What the manifest says.
    pub closed spec fn covered(&self) -> Seq<manifest::ManifestView> {
        manifest::manifest_views(self.entries@)
    }

    /// What the files that were read hold, in the order of the manifest.
    pub closed spec fn read(&self) -> Seq<Option<Seq<u8>>> {
        self.seen@
    }

    /// The report is that on the files that were read.
    pub closed spec fn wf(&self) -> bool {
        &&& self.next == self.seen@.len()
        &&& self.next <= self.entries@.len()
        &&& self.report@ == manifest::report_of(
            manifest::manifest_views(self.entries@).take(self.next as int),
            self.seen@,
        )
    }

    /// Begins an import; `manifest` is what reading the manifest gave.
    pub fn begin(opts: &ImportOptions, manifest: Result<&str, String>) -> (r: Result<
        ImportRun,
        ImportError,
    >)
        ensures
            match manifest {
                Err(e) => r == Err::<ImportRun, ImportError>(ImportError::Io(e)),
                Ok(text) => match manifest::parsed(text::lines_of(text@)) {
                    Err((number, line)) => r matches Err(ImportError::ManifestParse(e))
                        && e.line_number == number && e.line@ == line,
                    Ok(entries) => {
                        &&& r is Ok
                        &&& r->Ok_0.wf()
                        &&& r->Ok_0.source() == opts.source_dir@
                        &&& r->Ok_0.home() == opts.dest_home@
                        &&& r->Ok_0.forced() == opts.force
                        &&& r->Ok_0.covered() == entries
                        &&& r->Ok_0.read() == Seq::<Option<Seq<u8>>>::empty()
                    },
                },
            },
    {
        let text = match manifest {
            Ok(text) => text,
            Err(e) => {
                return Err(ImportError::Io(e));
            },
        };
        match manifest::parse(text) {
            Err(e) => Err(ImportError::ManifestParse(e)),
            Ok(entries) => {
                let run = ImportRun {
                    source_dir: opts.source_dir.clone(),
                    dest_home: opts.dest_home.clone(),
                    force: opts.force,
                    entries,
                    next: 0,
                    report: VerifyReport::default(),
                    seen: Ghost(Seq::empty()),
                };
                assert(manifest::manifest_views(run.entries@).take(0) =~= Seq::<
                    manifest::ManifestView,
                >::empty());
                Ok(run)
            },
        }
    }

    /// The file to read next, if any is left.
    pub fn next_file(&self) -> (r: Option<UnixPath>)
        requires
            self.wf(),
        ensures
            match r {
                Some(file) => self.read().len() < self.covered().len() && file@ == path::joined(
                    below(self.source(), "attache"@),
                    self.covered()[self.read().len() as int].path,
                ),
                None => self.read().len() == self.covered().len(),
            },
    {
        if self.next < self.entries.len() {
            let dir = vault_dir(&self.source_dir);
            Some(manifest::covered_file(&dir, &self.entries[self.next]))
        } else {
            None
        }
    }

    /// Takes what reading the next file gave.
    pub fn file_read(&mut self, contents: Option<&[u8]>)
        requires
            old(self).wf(),
            old(self).read().len() < old(self).covered().len(),
        ensures
            final(self).wf(),
            final(self).source() == old(self).source(),
            final(self).home() == old(self).home(),
            final(self).forced() == old(self).forced(),
            final(self).covered() == old(self).covered(),
            final(self).read() == old(self).read().push(whitelist::read_view(contents)),
    {
        let ghost all = manifest::manifest_views(self.entries@);
        let ghost before = self.seen@;
        let ghost n = self.next as int;
        assert(self.entries.len() <= usize::MAX);
        self.report.check_file(&self.entries[self.next], contents);
        self.next += 1;
        self.seen = Ghost(before.push(whitelist::read_view(contents)));
        assert(all.take(n + 1).drop_last() =~= all.take(n));
        assert(self.seen@.drop_last() =~= before);
    }

    /// Decides on the import once every file was read: `has_entries` is
    /// whether listing the destination found anything (`None` where it could
    /// not be listed).
    pub fn finish(self, has_entries: Option<bool>) -> (r: Result<ImportPlan, ImportError>)
        requires
            self.wf(),
            self.read().len() == self.covered().len(),
        ensures
            decided(
                self.source(),
                self.home(),
                self.forced(),
                self.covered(),
                self.read(),
                has_entries,
                r,
            ),
    {
        proof {
            let all = manifest::manifest_views(self.entries@);
            assert(all.take(self.next as int) =~= all);
        }
        if !self.report.all_ok() {
            return Err(ImportError::IntegrityFailed(self.report));
        }
        if !install::check_destination(has_entries, self.force).is_safe() {
            return Err(ImportError::DestinationRefused);
        }
        Ok(plan(&self.source_dir, &self.dest_home, self.report.ok.len()))
    }
}

/// How many files a manifest covers: none where it cannot be read.
pub open spec fn files_covered(manifest: Result<&str, String>) -> nat {
    match manifest {
        Ok(text) => match manifest::parsed(text::lines_of(text@)) {
            Ok(entries) => entries.len(),
            Err(_) => 0,
        },
        Err(_) => 0,
    }
}

/// Decides on an import: `manifest` is what reading the manifest gave, `files`
/// what reading each file that it covers gave, in the order of the manifest,
/// and `has_entries` whether listing the destination found anything (`None`
/// where it could not be listed).
pub fn run(
    opts: &ImportOptions,
    manifest: Result<&str, String>,
    files: &[Option<Vec<u8>>],
    has_entries: Option<bool>,
) -> (r: Result<ImportPlan, ImportError>)
    requires
        files@.len() == files_covered(manifest),
    ensures
        match manifest {
            Err(e) => r == Err::<ImportPlan, ImportError>(ImportError::Io(e)),
            Ok(text) => match manifest::parsed(text::lines_of(text@)) {
                Err((number, line)) => r matches Err(ImportError::ManifestParse(e))
                    && e.line_number == number && e.line@ == line,
                Ok(entries) => decided(
                    opts.source_dir@,
                    opts.dest_home@,
                    opts.force,
                    entries,
                    manifest::file_views(files@),
                    has_entries,
                    r,
                ),
            },
        },
{
    let mut run = match ImportRun::begin(opts, manifest) {
        Ok(run) => run,
        Err(e) => {
            return Err(e);
        },
    };
    let ghost entries = run.covered();
    let ghost held = manifest::file_views(files@);
    let mut i: usize = 0;
    while i < files.len()
        invariant
            i <= files@.len(),
            files@.len() == entries.len(),
            held == manifest::file_views(files@),
            run.wf(),
            run.source() == opts.source_dir@,
            run.home() == opts.dest_home@,
            run.forced() == opts.force,
            run.covered() == entries,
            run.read() == held.take(i as int),
        decreases files@.len() - i,
    {
        let contents = match &files[i] {
            Some(c) => Some(c.as_slice()),
            None => None,
        };
        assert(held[i as int] == whitelist::read_view(contents));
        run.file_read(contents);
        i += 1;
        assert(held.take(i as int) =~= held.take(i - 1).push(held[i - 1]));
    }
    assert(held.take(held.len() as int) =~= held);
    run.finish(has_entries)
}

/// Nothing is installed unless every file that the manifest covers is there
/// and holds what the manifest says, and unless the destination is free or is
/// to be overwritten; where both hold, the import goes ahead.
pub proof fn law_only_a_verified_vault_is_installed(
    source: Seq<u8>,
    home: Seq<u8>,
    force: bool,
    entries: Seq<manifest::ManifestView>,
    files: Seq<Option<Seq<u8>>>,
    has_entries: Option<bool>,
    r: Result<ImportPlan, ImportError>,
)
    requires
        entries.len() == files.len(),
        decided(source, home, force, entries, files, has_entries, r),
    ensures
        r is Ok <==> {
            &&& forall|i: int|
                0 <= i < entries.len() ==> #[trigger] manifest::is_intact(entries[i], files[i])
            &&& has_entries != Some(true) || force
        },
        r is Ok <==> {
            &&& forall|i: int|
                0 <= i < entries.len() ==> (#[trigger] files[i]) is Some && digest::sha256_text(
                    files[i]->0,
                ) == entries[i].hash
            &&& has_entries != Some(true) || force
        },
        r matches Err(ImportError::IntegrityFailed(_)) <==> exists|i: int|
            0 <= i < entries.len() && !((#[trigger] files[i]) is Some && digest::sha256_text(
                files[i]->0,
            ) == entries[i].hash),
        r is Ok || r matches Err(ImportError::IntegrityFailed(_))
            || r matches Err(ImportError::DestinationRefused),
{
    manifest::law_report_is_clean_when_every_file_is_intact(entries, files);
}

/// What was verified is what the manifest covers: an import that goes ahead
/// counts every file of the manifest.
pub proof fn law_every_covered_file_is_counted(
    source: Seq<u8>,
    home: Seq<u8>,
    force: bool,
    entries: Seq<manifest::ManifestView>,
    files: Seq<Option<Seq<u8>>>,
    has_entries: Option<bool>,
    r: Result<ImportPlan, ImportError>,
)
    requires
        entries.len() == files.len(),
        decided(source, home, force, entries, files, has_entries, r),
        r is Ok,
    ensures
        r->Ok_0.verified_files == entries.len(),
{
    manifest::law_every_file_is_reported(entries, files);
}

/// An import that finds damage gives the report on all the files, and so says which
/// are damaged: every file that cannot be read is among the missing ones, and every
/// file whose digest is not the one in the manifest is among the mismatched ones.
pub proof fn law_damage_is_named(
    source: Seq<u8>,
    home: Seq<u8>,
    force: bool,
    entries: Seq<manifest::ManifestView>,
    files: Seq<Option<Seq<u8>>>,
    has_entries: Option<bool>,
    r: Result<ImportPlan, ImportError>,
    i: int,
)
    requires
        entries.len() == files.len(),
        decided(source, home, force, entries, files, has_entries, r),
        0 <= i < entries.len(),
    ensures
        r matches Err(ImportError::IntegrityFailed(found)) ==> found@ == manifest::report_of(
            entries,
            files,
        ),
        files[i] is None ==> (r matches Err(ImportError::IntegrityFailed(found))
            && found@.missing.contains(entries[i].path)),
        files[i] is Some && digest::sha256_text(files[i]->0) != entries[i].hash ==> (
        r matches Err(ImportError::IntegrityFailed(found)) && found@.mismatched.contains(
            entries[i].path,
        )),
{
    manifest::law_report_is_clean_when_every_file_is_intact(entries, files);
    manifest::law_every_file_is_reported(entries, files);
}

/// An import that goes ahead installs from the disc and below the home directory:
/// the vault from `attache` to `.attache`, and the binaries from `bin` to
/// `.local/bin`, each under its own name.
pub proof fn law_import_installs_below_home(
    source: Seq<u8>,
    home: Seq<u8>,
    force: bool,
    entries: Seq<manifest::ManifestView>,
    files: Seq<Option<Seq<u8>>>,
    has_entries: Option<bool>,
    r: Result<ImportPlan, ImportError>,
)
    requires
        entries.len() == files.len(),
        decided(source, home, force, entries, files, has_entries, r),
        r is Ok,
    ensures
        ({
            let plan = r->Ok_0;
            let bin = path::joined(source, encode_utf8("bin"@));
            let local = path::joined(home, encode_utf8(".local"@));
            let dest = path::joined(local, encode_utf8("bin"@));
            let names = seq![
                "gocryptfs"@,
                "attache-gate"@,
                "attache-mount-helper"@,
                "att"@,
                "install-mount-helper.sh"@,
            ];
            &&& plan.vault@ == path::joined(source, encode_utf8("attache"@))
            &&& plan.cipherdir@ == path::joined(home, encode_utf8(".attache"@))
            &&& plan.bin_dir@ == dest
            &&& plan.binaries@.len() == names.len()
            &&& forall|i: int|
                0 <= i < names.len() ==> (#[trigger] plan.binaries@[i]).from@ == path::joined(
                    bin,
                    encode_utf8(names[i]),
                )
            &&& forall|i: int|
                0 <= i < names.len() ==> (#[trigger] plan.binaries@[i]).to@ == path::joined(
                    dest,
                    encode_utf8(names[i]),
                )
        }),
{
}

/// An error says what is wrong: the line of the manifest with its number, the name
/// of every damaged file on a line of its own, the missing ones first, or what the
/// system said.
pub proof fn law_error_says_what_is_wrong(
    line: ParseError,
    report: VerifyReport,
    io: String,
    label: Seq<char>,
    paths: Seq<Seq<u8>>,
    path: Seq<u8>,
)
    ensures
        ImportError::ManifestParse(line).words() == "malformed MANIFEST.sha256 at line "@
            + text::decimal(line.line_number as nat) + ": "@ + line.line@,
        ImportError::IntegrityFailed(report).words() == "attache integrity check failed:\n"@
            + path_lines("  missing: "@, report@.missing) + path_lines(
            "  mismatched checksum: "@,
            report@.mismatched,
        ),
        ImportError::DestinationRefused.words()
            == "destination already has an Attache installed; pass --force to overwrite, or choose a different --dest-home"@,
        ImportError::Io(io).words() == "I/O error: "@ + io@,
        path_lines(label, Seq::empty()) == Seq::<char>::empty(),
        path_lines(label, paths.push(path)) == path_lines(label, paths) + label
            + path::utf8_lossy(path) + "\n"@,
{
    assert(paths.push(path).drop_last() =~= paths);
}

/// What lies below a directory has the directory's path and its own name behind it.
pub proof fn law_below_a_directory(base: Seq<u8>, name: Seq<char>)
    ensures
        below(base, name) == path::joined(base, encode_utf8(name)),
{
}

/// As many files are read as the manifest has entries, and none where it cannot be
/// read or is not well-formed.
pub proof fn law_files_to_read_are_the_entries(text: &str, error: String)
    ensures
        files_covered(Err(error)) == 0,
        match manifest::parsed(text::lines_of(text@)) {
            Ok(entries) => files_covered(Ok(text)) == entries.len(),
            Err(_) => files_covered(Ok(text)) == 0,
        },
{
}

} // verus!
