//! Parsing and verification of the `MANIFEST.sha256` file burned alongside
//! the vault: a standard `sha256sum`-format manifest (`<hex>  <path>` per
//! line) used to detect disc rot or tampering before importing anything.

use crate::digest;
use crate::path;
use crate::path::UnixPath;
use crate::text;
use vstd::prelude::*;
use vstd::utf8::*;

verus! {

/// A file that the manifest covers.
#[derive(Debug, Clone, PartialEq, Eq)]
pub struct ManifestEntry {
    pub hash: String,
    pub path: UnixPath,
}

/// What a manifest entry says.
#[verifier::ext_equal]
pub struct ManifestView {
    pub hash: Seq<char>,
    pub path: Seq<u8>,
}

impl View for ManifestEntry {
    type V = ManifestView;

    open spec fn view(&self) -> ManifestView {
        ManifestView { hash: self.hash@, path: self.path@ }
    }
}

pub open spec fn manifest_views(s: Seq<ManifestEntry>) -> Seq<ManifestView> {
    Seq::new(s.len(), |i: int| s[i]@)
}

/// The first line of a manifest that is not well-formed.
#[derive(Debug, PartialEq, Eq)]
pub struct ParseError {
    pub line_number: usize,
    pub line: String,
}

/// Whether `c` is a hexadecimal digit.
pub open spec fn is_hex(c: char) -> bool {
    ('0' <= c && c <= '9') || ('a' <= c && c <= 'f') || ('A' <= c && c <= 'F')
}

/// A hexadecimal digit in lower case.
pub open spec fn hex_lower(c: char) -> char {
    if 'A' <= c && c <= 'F' {
        (c as u32 + 32) as char
    } else {
        c
    }
}

/// Whether a line of a manifest is well-formed: 64 hexadecimal digits, two
/// spaces, and a path that is not empty.
pub open spec fn is_entry_line(line: Seq<char>) -> bool {
    &&& line.len() > 66
    &&& forall|i: int| 0 <= i < 64 ==> is_hex(#[trigger] line[i])
    &&& line[64] == ' '
    &&& line[65] == ' '
}

/// What a well-formed line says: a digest, in lower case, and a path.
pub open spec fn entry_of(line: Seq<char>) -> ManifestView {
    ManifestView {
        hash: Seq::new(64, |i: int| hex_lower(line[i])),
        path: encode_utf8(line.skip(66)),
    }
}

/// Reads a line of a manifest.
pub fn parse_line(line: &str) -> (r: Option<ManifestEntry>)
    ensures
        match r {
            Some(e) => is_entry_line(line@) && e@ == entry_of(line@),
            None => !is_entry_line(line@),
        },
{
    let chars = text::chars_of(line);
    if chars.len() <= 66 || chars[64] != ' ' || chars[65] != ' ' {
        return None;
    }
    let mut hash = String::new();
    let mut i: usize = 0;
    while i < 64
        invariant
            i <= 64 < chars@.len(),
            chars@ == line@,
            forall|j: int| 0 <= j < i ==> is_hex(#[trigger] chars@[j]),
            hash@ == Seq::new(i as nat, |j: int| hex_lower(chars@[j])),
        decreases 64 - i,
    {
        let c: char = chars[i];
        if '0' <= c && c <= '9' || 'a' <= c && c <= 'f' {
            hash.push(c);
        } else if 'A' <= c && c <= 'F' {
            let low: u8 = c as u8 + 32;
            hash.push(low as char);
        } else {
            assert(!is_hex(line@[i as int]));
            return None;
        }
        i += 1;
        assert(hash@ =~= Seq::new(i as nat, |j: int| hex_lower(chars@[j])));
    }
    let path = text::string_of(chars.as_slice(), 66, chars.len());
    assert(path@ =~= line@.skip(66));
    let entry = ManifestEntry { hash, path: UnixPath::new(path.as_str()) };
    assert(entry@ =~= entry_of(line@));
    Some(entry)
}

/// What the lines of a manifest say: the entries of those that are not blank,
/// or the number and the text of the first that is neither blank nor
/// well-formed.
pub open spec fn parsed(lines: Seq<Seq<char>>) -> Result<Seq<ManifestView>, (nat, Seq<char>)>
    decreases lines.len(),
{
    if lines.len() == 0 {
        Ok(Seq::empty())
    } else {
        match parsed(lines.drop_last()) {
            Err(e) => Err(e),
            Ok(entries) => if text::is_blank(lines.last()) {
                Ok(entries)
            } else if is_entry_line(lines.last()) {
                Ok(entries.push(entry_of(lines.last())))
            } else {
                Err((lines.len(), lines.last()))
            },
        }
    }
}

fn blank(line: &str) -> (r: bool)
    ensures
        r == text::is_blank(line@),
{
    let chars = text::chars_of(line);
    let mut i: usize = 0;
    while i < chars.len()
        invariant
            i <= chars@.len(),
            chars@ == line@,
            forall|j: int| 0 <= j < i ==> text::is_space(#[trigger] chars@[j]),
        decreases chars@.len() - i,
    {
        if !text::is_white_space(chars[i]) {
            assert(!text::is_space(line@[i as int]));
            return false;
        }
        i += 1;
    }
    true
}

/// Reads a manifest.
pub fn parse(text: &str) -> (r: Result<Vec<ManifestEntry>, ParseError>)
    ensures
        match (parsed(text::lines_of(text@)), r) {
            (Ok(entries), Ok(v)) => manifest_views(v@) == entries,
            (Err((number, line)), Err(e)) => e.line_number == number && e.line@ == line,
            _ => false,
        },
{
    let lines = text::lines(text);
    let ghost all = text::texts(lines@);
    let mut entries: Vec<ManifestEntry> = Vec::new();
    let mut i: usize = 0;
    assert(all.take(0) =~= Seq::<Seq<char>>::empty());
    assert(manifest_views(entries@) =~= Seq::<ManifestView>::empty());
    while i < lines.len()
        invariant
            i <= lines@.len(),
            all == text::texts(lines@),
            all == text::lines_of(text@),
            parsed(all.take(i as int)) == Ok::<Seq<ManifestView>, (nat, Seq<char>)>(
                manifest_views(entries@),
            ),
        decreases lines@.len() - i,
    {
        assert(all.take(i + 1).drop_last() =~= all.take(i as int));
        assert(all.take(i + 1).last() == lines@[i as int]@);
        if !blank(lines[i].as_str()) {
            match parse_line(lines[i].as_str()) {
                Some(entry) => {
                    let ghost held = entries@;
                    entries.push(entry);
                    assert(manifest_views(entries@) =~= manifest_views(held).push(entry@));
                },
                None => {
                    proof {
                        lemma_first_error_stays(all, i + 1);
                    }
                    return Err(ParseError { line_number: i + 1, line: lines[i].clone() });
                },
            }
        }
        i += 1;
    }
    assert(all.take(all.len() as int) =~= all);
    Ok(entries)
}

proof fn lemma_first_error_stays(lines: Seq<Seq<char>>, n: int)
    requires
        0 <= n <= lines.len(),
        parsed(lines.take(n)) is Err,
    ensures
        parsed(lines) == parsed(lines.take(n)),
    decreases lines.len() - n,
{
    if n < lines.len() {
        assert(lines.take(n + 1).drop_last() =~= lines.take(n));
        lemma_first_error_stays(lines, n + 1);
    } else {
        assert(lines.take(n) =~= lines);
    }
}

/// A manifest is accepted exactly when each of its lines is blank or
/// well-formed.
pub proof fn law_manifest_is_accepted_line_by_line(lines: Seq<Seq<char>>)
    ensures
        parsed(lines) is Ok <==> forall|i: int|
            0 <= i < lines.len() ==> text::is_blank(#[trigger] lines[i]) || is_entry_line(lines[i]),
    decreases lines.len(),
{
    if lines.len() > 0 {
        let front = lines.drop_last();
        law_manifest_is_accepted_line_by_line(front);
        if parsed(front) is Err {
            let i = choose|i: int|
                0 <= i < front.len() && !(text::is_blank(#[trigger] front[i]) || is_entry_line(
                    front[i],
                ));
            assert(lines[i] == front[i]);
        } else if parsed(lines) is Ok {
            assert forall|i: int| 0 <= i < lines.len() implies text::is_blank(#[trigger] lines[i])
                || is_entry_line(lines[i]) by {
                if i < front.len() {
                    assert(lines[i] == front[i]);
                }
            }
        } else {
            assert(lines[lines.len() - 1] == lines.last());
        }
    }
}

/// The line that `sha256sum` writes for a file is read back as its digest and
/// its path.
pub proof fn law_written_line_is_read_back(hash: Seq<char>, path: Seq<char>)
    requires
        hash.len() == 64,
        forall|i: int| 0 <= i < hash.len() ==> digest::is_hex_lower(#[trigger] hash[i]),
        path.len() > 0,
    ensures
        is_entry_line(hash + seq![' ', ' '] + path),
        entry_of(hash + seq![' ', ' '] + path) == (ManifestView {
            hash,
            path: encode_utf8(path),
        }),
{
    let line = hash + seq![' ', ' '] + path;
    assert forall|i: int| 0 <= i < 64 implies is_hex(#[trigger] line[i]) by {
        assert(line[i] == hash[i]);
    }
    assert(line.skip(66) =~= path);
    assert(entry_of(line).hash =~= hash) by {
        assert forall|i: int| 0 <= i < 64 implies #[trigger] entry_of(line).hash[i] == hash[i] by {
            assert(line[i] == hash[i]);
            assert(digest::is_hex_lower(hash[i]));
        }
    }
}

/// A manifest of well-formed lines is read as their entries, in their order.
pub proof fn law_manifest_is_read_in_its_order(lines: Seq<Seq<char>>)
    requires
        forall|i: int| 0 <= i < lines.len() ==> is_entry_line(#[trigger] lines[i]),
    ensures
        parsed(lines) == Ok::<Seq<ManifestView>, (nat, Seq<char>)>(
            Seq::new(lines.len(), |i: int| entry_of(lines[i])),
        ),
    decreases lines.len(),
{
    let entries = Seq::new(lines.len(), |i: int| entry_of(lines[i]));
    if lines.len() == 0 {
        assert(entries =~= Seq::<ManifestView>::empty());
    } else {
        let front = lines.drop_last();
        assert forall|i: int| 0 <= i < front.len() implies is_entry_line(#[trigger] front[i]) by {
            assert(front[i] == lines[i]);
        }
        law_manifest_is_read_in_its_order(front);
        let last = lines[lines.len() - 1];
        assert(is_entry_line(last));
        assert(is_hex(last[0]) && !text::is_space(last[0]));
        assert(!text::is_blank(lines.last()));
        assert(Seq::new(front.len(), |i: int| entry_of(front[i])).push(entry_of(last)) =~= entries);
    }
}

/// A manifest in writing: for each file its digest, two spaces and its path, on a
/// line of its own.
pub open spec fn written(files: Seq<(Seq<char>, Seq<char>)>) -> Seq<char>
    decreases files.len(),
{
    if files.len() == 0 {
        Seq::empty()
    } else {
        (files[0].0 + seq![' ', ' '] + files[0].1).push('\n') + written(files.skip(1))
    }
}

/// Whether a file can be written on a line: its digest is one in lower case, and
/// its path is neither empty nor breaks the line.
pub open spec fn is_writable(hash: Seq<char>, path: Seq<char>) -> bool {
    &&& hash.len() == 64
    &&& forall|i: int| 0 <= i < hash.len() ==> digest::is_hex_lower(#[trigger] hash[i])
    &&& path.len() > 0
    &&& forall|i: int| 0 <= i < path.len() ==> #[trigger] path[i] != '\n'
    &&& path.last() != '\r'
}

/// A written manifest is read back: the entries that were written, in their
/// order.
pub proof fn law_written_manifest_is_read_back(files: Seq<(Seq<char>, Seq<char>)>)
    requires
        forall|i: int| 0 <= i < files.len() ==> is_writable((#[trigger] files[i]).0, files[i].1),
    ensures
        parsed(text::lines_of(written(files))) == Ok::<Seq<ManifestView>, (nat, Seq<char>)>(
            Seq::new(
                files.len(),
                |i: int| ManifestView { hash: files[i].0, path: encode_utf8(files[i].1) },
            ),
        ),
{
    let lines = Seq::new(files.len(), |i: int| files[i].0 + seq![' ', ' '] + files[i].1);
    lemma_written_lines(files);
    assert forall|i: int| 0 <= i < lines.len() implies is_entry_line(#[trigger] lines[i]) by {
        assert(is_writable(files[i].0, files[i].1));
        law_written_line_is_read_back(files[i].0, files[i].1);
    }
    law_manifest_is_read_in_its_order(lines);
    assert forall|i: int| 0 <= i < files.len() implies entry_of(#[trigger] lines[i]) == (
    ManifestView { hash: files[i].0, path: encode_utf8(files[i].1) }) by {
        assert(is_writable(files[i].0, files[i].1));
        law_written_line_is_read_back(files[i].0, files[i].1);
    }
    assert(Seq::new(lines.len(), |i: int| entry_of(lines[i])) =~= Seq::new(
        files.len(),
        |i: int| ManifestView { hash: files[i].0, path: encode_utf8(files[i].1) },
    ));
}

proof fn lemma_written_lines(files: Seq<(Seq<char>, Seq<char>)>)
    requires
        forall|i: int| 0 <= i < files.len() ==> is_writable((#[trigger] files[i]).0, files[i].1),
    ensures
        text::lines_of(written(files)) == Seq::new(
            files.len(),
            |i: int| files[i].0 + seq![' ', ' '] + files[i].1,
        ),
    decreases files.len(),
{
    let lines = Seq::new(files.len(), |i: int| files[i].0 + seq![' ', ' '] + files[i].1);
    if files.len() == 0 {
        assert(lines =~= Seq::<Seq<char>>::empty());
    } else {
        let rest = files.skip(1);
        assert forall|i: int| 0 <= i < rest.len() implies is_writable(
            (#[trigger] rest[i]).0,
            rest[i].1,
        ) by {
            assert(rest[i] == files[i + 1]);
        }
        lemma_written_lines(rest);
        assert(is_writable(files[0].0, files[0].1));
        let (hash, path) = (files[0].0, files[0].1);
        let line = hash + seq![' ', ' '] + path;
        assert forall|i: int| 0 <= i < line.len() implies #[trigger] line[i] != '\n' by {
            if i < 64 {
                assert(digest::is_hex_lower(hash[i]));
                assert(line[i] == hash[i]);
            } else if i >= 66 {
                assert(line[i] == path[i - 66]);
            }
        }
        assert(line.last() == path.last());
        text::lemma_first_line(line, written(rest));
        assert(lines =~= seq![line] + Seq::new(
            rest.len(),
            |i: int| rest[i].0 + seq![' ', ' '] + rest[i].1,
        ));
    }
}

/// Which of the files that a manifest covers are as it says, are missing, or
/// hold something else.
#[derive(Debug, PartialEq, Eq)]
pub struct VerifyReport {
    pub ok: Vec<UnixPath>,
    pub missing: Vec<UnixPath>,
    pub mismatched: Vec<UnixPath>,
}

/// What a report says, with paths by their bytes.
#[verifier::ext_equal]
pub struct ReportView {
    pub ok: Seq<Seq<u8>>,
    pub missing: Seq<Seq<u8>>,
    pub mismatched: Seq<Seq<u8>>,
}

pub open spec fn path_views(s: Seq<UnixPath>) -> Seq<Seq<u8>> {
    Seq::new(s.len(), |i: int| s[i]@)
}

impl View for VerifyReport {
    type V = ReportView;

    open spec fn view(&self) -> ReportView {
        ReportView {
            ok: path_views(self.ok@),
            missing: path_views(self.missing@),
            mismatched: path_views(self.mismatched@),
        }
    }
}

/// Whether a file, which holds `contents`, is as its entry says.
pub open spec fn is_intact(e: ManifestView, contents: Option<Seq<u8>>) -> bool {
    contents is Some && digest::sha256_text(contents->0) == e.hash
}

/// A report after one more file was looked at, which holds `contents` (`None`
/// where it cannot be read).
pub open spec fn checked(r: ReportView, e: ManifestView, contents: Option<Seq<u8>>) -> ReportView {
    if is_intact(e, contents) {
        ReportView { ok: r.ok.push(e.path), ..r }
    } else if contents is Some {
        ReportView { mismatched: r.mismatched.push(e.path), ..r }
    } else {
        ReportView { missing: r.missing.push(e.path), ..r }
    }
}

/// The report on the files of a manifest, of which the i-th holds the i-th of
/// `files`.
pub open spec fn report_of(entries: Seq<ManifestView>, files: Seq<Option<Seq<u8>>>) -> ReportView
    decreases entries.len(),
{
    if entries.len() == 0 {
        ReportView { ok: Seq::empty(), missing: Seq::empty(), mismatched: Seq::empty() }
    } else {
        checked(
            report_of(entries.drop_last(), files.drop_last()),
            entries.last(),
            files.last(),
        )
    }
}

/// What reading a list of files gave.
pub open spec fn file_views(s: Seq<Option<Vec<u8>>>) -> Seq<Option<Seq<u8>>> {
    Seq::new(
        s.len(),
        |i: int|
            match s[i] {
                Some(c) => Some(c@),
                None => None::<Seq<u8>>,
            },
    )
}

impl Default for VerifyReport {
    /// A report on no files.
    fn default() -> (r: Self)
        ensures
            r@ == report_of(Seq::empty(), Seq::empty()),
    {
        let r = VerifyReport { ok: Vec::new(), missing: Vec::new(), mismatched: Vec::new() };
        assert(r@ =~= report_of(Seq::empty(), Seq::empty()));
        r
    }
}

impl VerifyReport {
    /// Looks at one more file: `contents` is what reading it gave.
    pub fn check_file(&mut self, entry: &ManifestEntry, contents: Option<&[u8]>)
        ensures
            final(self)@ == checked(
                old(self)@,
                entry@,
                crate::whitelist::read_view(contents),
            ),
    {
        let path = entry.path.clone();
        let ghost before = self@;
        match contents {
            Some(bytes) => {
                if sha256_hex(bytes) == entry.hash {
                    self.ok.push(path);
                    assert(path_views(self.ok@) =~= before.ok.push(entry.path@));
                } else {
                    self.mismatched.push(path);
                    assert(path_views(self.mismatched@) =~= before.mismatched.push(entry.path@));
                }
            },
            None => {
                self.missing.push(path);
                assert(path_views(self.missing@) =~= before.missing.push(entry.path@));
            },
        }
    }

    /// Whether every file is as the manifest says.
    pub fn all_ok(&self) -> (r: bool)
        ensures
            r == (self@.missing.len() == 0 && self@.mismatched.len() == 0),
    {
        self.missing.is_empty() && self.mismatched.is_empty()
    }
}

/// The SHA-256 digest of `bytes`, in lower-case hexadecimal.
pub fn sha256_hex(bytes: &[u8]) -> (r: String)
    ensures
        r@ == digest::sha256_text(bytes@),
        r@.len() == 64,
        forall|i: int| 0 <= i < r@.len() ==> digest::is_hex_lower(#[trigger] r@[i]),
{
    digest::hex_digest(bytes)
}

/// Verifies every manifest entry's file: `files` holds, in the order of the
/// entries, what reading each gave. Files that the manifest does not list are
/// not looked at: it asserts what it covers, and says nothing of others.
pub fn verify(entries: &[ManifestEntry], files: &[Option<Vec<u8>>]) -> (r: VerifyReport)
    requires
        entries@.len() == files@.len(),
    ensures
        r@ == report_of(manifest_views(entries@), file_views(files@)),
{
    let mut report = VerifyReport::default();
    let ghost all = manifest_views(entries@);
    let ghost held = file_views(files@);
    let mut i: usize = 0;
    assert(all.take(0) =~= Seq::<ManifestView>::empty());
    assert(held.take(0) =~= Seq::<Option<Seq<u8>>>::empty());
    while i < entries.len()
        invariant
            i <= entries@.len(),
            entries@.len() == files@.len(),
            all == manifest_views(entries@),
            held == file_views(files@),
            report@ == report_of(all.take(i as int), held.take(i as int)),
        decreases entries@.len() - i,
    {
        assert(all.take(i + 1).drop_last() =~= all.take(i as int));
        assert(held.take(i + 1).drop_last() =~= held.take(i as int));
        let contents = match &files[i] {
            Some(c) => Some(c.as_slice()),
            None => None,
        };
        assert(held[i as int] == crate::whitelist::read_view(contents));
        report.check_file(&entries[i], contents);
        i += 1;
    }
    assert(all.take(all.len() as int) =~= all);
    assert(held.take(held.len() as int) =~= held);
    report
}

/// The file that an entry of the manifest in `attache_dir` covers.
pub fn covered_file(attache_dir: &UnixPath, entry: &ManifestEntry) -> (r: UnixPath)
    ensures
        r@ == path::joined(attache_dir@, entry.path@),
{
    attache_dir.join(entry.path.bytes.as_slice())
}

/// A report is clean exactly when every file that the manifest covers is there
/// and holds what the manifest says.
pub proof fn law_report_is_clean_when_every_file_is_intact(
    entries: Seq<ManifestView>,
    files: Seq<Option<Seq<u8>>>,
)
    requires
        entries.len() == files.len(),
    ensures
        ({
            let r = report_of(entries, files);
            r.missing.len() == 0 && r.mismatched.len() == 0
        }) <==> forall|i: int| 0 <= i < entries.len() ==> #[trigger] is_intact(entries[i], files[i]),
        ({
            let r = report_of(entries, files);
            r.missing.len() == 0 && r.mismatched.len() == 0
        }) <==> forall|i: int|
            0 <= i < entries.len() ==> (#[trigger] files[i]) is Some && digest::sha256_text(
                files[i]->0,
            ) == entries[i].hash,
    decreases entries.len(),
{
    if entries.len() > 0 {
        let e = entries.drop_last();
        let f = files.drop_last();
        law_report_is_clean_when_every_file_is_intact(e, f);
        let before = report_of(e, f);
        let n = entries.len() - 1;
        if before.missing.len() == 0 && before.mismatched.len() == 0 {
            assert forall|i: int| 0 <= i < n implies #[trigger] is_intact(entries[i], files[i]) by {
                assert(is_intact(e[i], f[i]));
            }
            assert(is_intact(entries[n], files[n]) == is_intact(entries.last(), files.last()));
        } else {
            let i = choose|i: int| 0 <= i < e.len() && !#[trigger] is_intact(e[i], f[i]);
            assert(!is_intact(entries[i], files[i]));
        }
    }
    assert forall|i: int| 0 <= i < entries.len() implies is_intact(entries[i], files[i]) == ((
    #[trigger] files[i]) is Some && digest::sha256_text(files[i]->0) == entries[i].hash) by {}
}

/// The list of a report where a file belongs that holds `contents`.
pub open spec fn listed_under(
    r: ReportView,
    e: ManifestView,
    contents: Option<Seq<u8>>,
) -> Seq<Seq<u8>> {
    if is_intact(e, contents) {
        r.ok
    } else if contents is Some {
        r.mismatched
    } else {
        r.missing
    }
}

/// Every file that the manifest covers is reported where it belongs, as intact,
/// mismatched or missing, whatever became of the others; and as much is
/// reported as the manifest covers.
pub proof fn law_every_file_is_reported(entries: Seq<ManifestView>, files: Seq<Option<Seq<u8>>>)
    requires
        entries.len() == files.len(),
    ensures
        forall|i: int|
            0 <= i < entries.len() ==> #[trigger] listed_under(
                report_of(entries, files),
                entries[i],
                files[i],
            ).contains(entries[i].path),
        forall|i: int|
            0 <= i < entries.len() ==> match #[trigger] files[i] {
                Some(c) => if digest::sha256_text(c) == entries[i].hash {
                    report_of(entries, files).ok.contains(entries[i].path)
                } else {
                    report_of(entries, files).mismatched.contains(entries[i].path)
                },
                None => report_of(entries, files).missing.contains(entries[i].path),
            },
        ({
            let r = report_of(entries, files);
            r.ok.len() + r.missing.len() + r.mismatched.len() == entries.len()
        }),
    decreases entries.len(),
{
    if entries.len() > 0 {
        let e = entries.drop_last();
        let f = files.drop_last();
        law_every_file_is_reported(e, f);
        let before = report_of(e, f);
        let r = report_of(entries, files);
        assert forall|i: int| 0 <= i < entries.len() implies #[trigger] listed_under(
            r,
            entries[i],
            files[i],
        ).contains(entries[i].path) by {
            let list = listed_under(r, entries[i], files[i]);
            if i < e.len() {
                let held = listed_under(before, e[i], f[i]);
                assert(held.contains(e[i].path));
                let at = choose|j: int| 0 <= j < held.len() && held[j] == e[i].path;
                assert(list[at] == entries[i].path);
            } else {
                assert(list[list.len() - 1] == entries[i].path);
            }
        }
    }
    let r = report_of(entries, files);
    assert forall|i: int| 0 <= i < entries.len() implies match #[trigger] files[i] {
        Some(c) => if digest::sha256_text(c) == entries[i].hash {
            r.ok.contains(entries[i].path)
        } else {
            r.mismatched.contains(entries[i].path)
        },
        None => r.missing.contains(entries[i].path),
    } by {
        assert(listed_under(r, entries[i], files[i]).contains(entries[i].path));
    }
}

/// A file goes to the end of one list of the report, and to no other: to the
/// intact ones where the digest of what it holds is the one in the manifest,
/// whatever it holds and however much; to the mismatched ones where it holds
/// something else; to the missing ones where it cannot be read. What was reported
/// of the files before it stays.
pub proof fn law_file_is_reported_by_its_digest(
    entries: Seq<ManifestView>,
    files: Seq<Option<Seq<u8>>>,
    e: ManifestView,
    contents: Seq<u8>,
)
    requires
        entries.len() == files.len(),
    ensures
        ({
            let before = report_of(entries, files);
            let read = report_of(entries.push(e), files.push(Some(contents)));
            let unread = report_of(entries.push(e), files.push(None));
            &&& digest::sha256_text(contents) == e.hash ==> {
                &&& read.ok == before.ok.push(e.path)
                &&& read.mismatched == before.mismatched
            }
            &&& digest::sha256_text(contents) != e.hash ==> {
                &&& read.ok == before.ok
                &&& read.mismatched == before.mismatched.push(e.path)
            }
            &&& read.missing == before.missing
            &&& unread.missing == before.missing.push(e.path)
            &&& unread.ok == before.ok
            &&& unread.mismatched == before.mismatched
        }),
        ({
            let nothing = report_of(Seq::empty(), Seq::empty());
            nothing.ok.len() == 0 && nothing.missing.len() == 0 && nothing.mismatched.len() == 0
        }),
{
    assert(entries.push(e).drop_last() =~= entries);
    assert(files.push(Some(contents)).drop_last() =~= files);
    assert(files.push(None).drop_last() =~= files);
}

/// A line is well-formed exactly when it is a digest of 64 hexadecimal digits, in
/// either case, two spaces, and a path that is not empty, whatever it holds. The
/// path is read as it is written, and the digest digit by digit, in lower case.
pub proof fn law_line_is_a_digest_and_a_path(
    line: Seq<char>,
    hash: Seq<char>,
    gap: Seq<char>,
    path: Seq<char>,
    i: int,
)
    requires
        hash.len() == 64,
        gap.len() == 2,
        line == hash + gap + path,
        0 <= i < 64,
    ensures
        is_entry_line(line) <==> {
            &&& gap == seq![' ', ' ']
            &&& path.len() > 0
            &&& forall|j: int|
                0 <= j < 64 ==> {
                    ||| '0' <= #[trigger] hash[j] && hash[j] <= '9'
                    ||| 'a' <= hash[j] && hash[j] <= 'f'
                    ||| 'A' <= hash[j] && hash[j] <= 'F'
                }
        },
        entry_of(line).path == encode_utf8(path),
        entry_of(line).hash.len() == 64,
        'A' <= hash[i] && hash[i] <= 'F' ==> entry_of(line).hash[i] as int == hash[i] as int + 32,
        !('A' <= hash[i] && hash[i] <= 'F') ==> entry_of(line).hash[i] == hash[i],
{
    assert(line.skip(66) =~= path);
    assert(forall|j: int| 0 <= j < 64 ==> #[trigger] line[j] == hash[j]);
    assert(line[64] == gap[0] && line[65] == gap[1]);
    if is_entry_line(line) {
        assert(gap =~= seq![' ', ' ']);
        assert forall|j: int| 0 <= j < 64 implies {
            ||| '0' <= #[trigger] hash[j] && hash[j] <= '9'
            ||| 'a' <= hash[j] && hash[j] <= 'f'
            ||| 'A' <= hash[j] && hash[j] <= 'F'
        } by {
            assert(is_hex(line[j]));
        }
    }
}

/// A line that is too short for a digest, two spaces and a path is not
/// well-formed.
pub proof fn law_short_line_is_refused(line: Seq<char>)
    requires
        line.len() < 67,
    ensures
        !is_entry_line(line),
{
}

/// A manifest is read line by line: a blank line says nothing, a well-formed one
/// adds its entry behind the others, and the first that is neither ends the
/// reading, with its number, counted from one, and its text.
pub proof fn law_manifest_is_read_line_by_line(lines: Seq<Seq<char>>, line: Seq<char>)
    ensures
        parsed(Seq::empty()) == Ok::<Seq<ManifestView>, (nat, Seq<char>)>(Seq::empty()),
        parsed(lines) is Err ==> parsed(lines.push(line)) == parsed(lines),
        parsed(lines) is Ok ==> parsed(lines.push(line)) == if text::is_blank(line) {
            parsed(lines)
        } else if is_entry_line(line) {
            Ok(parsed(lines)->Ok_0.push(entry_of(line)))
        } else {
            Err(((lines.len() + 1) as nat, line))
        },
{
    assert(lines.push(line).drop_last() =~= lines);
}

/// What a manifest entry, a report and the contents of files say is what they
/// hold, one for one.
pub proof fn law_reports_say_what_they_hold(
    e: ManifestEntry,
    v: Seq<ManifestEntry>,
    r: VerifyReport,
    p: Seq<UnixPath>,
    f: Seq<Option<Vec<u8>>>,
    i: int,
)
    ensures
        e@.hash == e.hash@,
        e@.path == e.path@,
        manifest_views(v).len() == v.len(),
        0 <= i < v.len() ==> manifest_views(v)[i] == v[i]@,
        path_views(p).len() == p.len(),
        0 <= i < p.len() ==> path_views(p)[i] == p[i]@,
        r@.ok == path_views(r.ok@),
        r@.missing == path_views(r.missing@),
        r@.mismatched == path_views(r.mismatched@),
        file_views(f).len() == f.len(),
        0 <= i < f.len() ==> (file_views(f)[i] is Some <==> f[i] is Some),
        0 <= i < f.len() && f[i] is Some ==> file_views(f)[i] == Some(f[i]->0@),
{
}

/// A file that is looked at goes to the end of one list of a report, whatever the
/// report says so far: to the intact ones exactly where its digest is the one in the
/// manifest, to the mismatched ones where it can be read and is another, and to the
/// missing ones where it cannot be read.
pub proof fn law_check_adds_to_one_list(r: ReportView, e: ManifestView, contents: Option<Seq<u8>>)
    ensures
        ({
            let after = checked(r, e, contents);
            let same = contents is Some && digest::sha256_text(contents->0) == e.hash;
            &&& after.ok == if same {
                r.ok.push(e.path)
            } else {
                r.ok
            }
            &&& after.mismatched == if contents is Some && !same {
                r.mismatched.push(e.path)
            } else {
                r.mismatched
            }
            &&& after.missing == if contents is None {
                r.missing.push(e.path)
            } else {
                r.missing
            }
        }),
        is_intact(e, contents) <==> contents is Some && digest::sha256_text(contents->0) == e.hash,
{
}

} // verus!
