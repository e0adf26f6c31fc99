//! The binaries that may always open the vault.

use crate::digest;
use crate::path;
use crate::path::UnixPath;
use crate::process_info::ProcessIdentity;
use crate::text;
use vstd::prelude::*;
use vstd::string::*;
use vstd::utf8::*;

verus! {

/// Name of the whitelist file inside the vault's backing directory. The
/// mounted vault refuses all access to any path with this file name, so the
/// file cannot be read, overwritten or deleted through the vault.
pub const WHITELIST_FILENAME: &'static str = ".attache-gate-whitelist.json";

/// One approved binary.
#[derive(Debug, Clone)]
pub struct WhitelistEntry {
    pub path: UnixPath,
    pub comm: String,
    /// Hex-encoded SHA-256 of the binary's contents when it was approved. A
    /// binary that is later swapped out at the same path no longer matches it
    /// and loses its approval.
    pub sha256: String,
    /// When it was approved, in seconds since the epoch.
    pub added_at: u64,
}

/// What an entry says.
#[verifier::ext_equal]
pub struct EntryView {
    pub path: Seq<u8>,
    pub comm: Seq<char>,
    pub sha256: Seq<char>,
    pub added_at: u64,
}

impl View for WhitelistEntry {
    type V = EntryView;

    open spec fn view(&self) -> EntryView {
        EntryView {
            path: self.path@,
            comm: self.comm@,
            sha256: self.sha256@,
            added_at: self.added_at,
        }
    }
}

/// What a list of entries says.
pub open spec fn entry_views(s: Seq<WhitelistEntry>) -> Seq<EntryView> {
    Seq::new(s.len(), |i: int| s[i]@)
}

/// The first entry for a path.
pub open spec fn first_entry(s: Seq<EntryView>, k: path::PathKey) -> Option<EntryView>
    decreases s.len(),
{
    if s.len() == 0 {
        None
    } else {
        match first_entry(s.drop_last(), k) {
            Some(e) => Some(e),
            None => if path::key_of(s.last().path) == k {
                Some(s.last())
            } else {
                None
            },
        }
    }
}

/// The entries that are not for a path, in their order.
pub open spec fn without(s: Seq<EntryView>, k: path::PathKey) -> Seq<EntryView>
    decreases s.len(),
{
    if s.len() == 0 {
        Seq::empty()
    } else if path::key_of(s.last().path) == k {
        without(s.drop_last(), k)
    } else {
        without(s.drop_last(), k).push(s.last())
    }
}

/// Whether the entries approve of the binary at `k`, what it now holds having
/// the digest `sha256` (`None` where it cannot be read).
pub open spec fn approved_by_digest(
    s: Seq<EntryView>,
    k: path::PathKey,
    sha256: Option<Seq<char>>,
) -> bool {
    match (first_entry(s, k), sha256) {
        (Some(e), Some(h)) => h == e.sha256,
        _ => false,
    }
}

/// The digest of what a file holds, where it can be read.
pub open spec fn digest_of(contents: Option<Seq<u8>>) -> Option<Seq<char>> {
    match contents {
        Some(c) => Some(digest::sha256_text(c)),
        None => None,
    }
}

/// Whether the entries approve of the binary at `k`, which now holds
/// `contents` (`None` where it cannot be read).
pub open spec fn approved(s: Seq<EntryView>, k: path::PathKey, contents: Option<Seq<u8>>) -> bool {
    approved_by_digest(s, k, digest_of(contents))
}

/// The entries after `e` was approved: it takes the place of those for its
/// path and stands at the end.
pub open spec fn with_entry(s: Seq<EntryView>, e: EntryView) -> Seq<EntryView> {
    without(s, path::key_of(e.path)).push(e)
}

/// An entry as a row: digest, time of approval, name and path, with tabs
/// between them and a line feed at the end.
pub open spec fn row(e: EntryView) -> Seq<char> {
    e.sha256.push('\t') + text::decimal(e.added_at as nat).push('\t') + e.comm.push('\t')
        + path::utf8_lossy(e.path).push('\n')
}

/// Entries as rows, one after the other.
pub open spec fn rows(s: Seq<EntryView>) -> Seq<char>
    decreases s.len(),
{
    if s.len() == 0 {
        Seq::empty()
    } else {
        rows(s.drop_last()) + row(s.last())
    }
}

/// What a reading of a file gave, as the contracts speak of it.
pub open spec fn read_view(contents: Option<&[u8]>) -> Option<Seq<u8>> {
    match contents {
        Some(c) => Some(c@),
        None => None,
    }
}

/// The digest by which a binary is approved, from what reading it gave.
pub fn hash_file<E>(contents: Result<&[u8], E>) -> (r: Result<String, E>)
    ensures
        match (contents, r) {
            (Ok(c), Ok(h)) => h@ == digest::sha256_text(c@),
            (Err(e), Err(f)) => e == f,
            _ => false,
        },
{
    match contents {
        Ok(c) => Ok(digest::hex_digest(c)),
        Err(e) => Err(e),
    }
}

/// Where the whitelist is written: first to `temporary`, which then takes the
/// place of `file`, so that a crash in between leaves no half of it.
pub struct PersistPlan {
    pub temporary: UnixPath,
    pub file: UnixPath,
}

/// Persistent record of binaries the user has approved for "always allow"
/// access to this vault. It lives inside the vault's own backing directory,
/// so it travels with the vault.
pub struct Whitelist {
    file: UnixPath,
    entries: Vec<WhitelistEntry>,
}

impl View for Whitelist {
    type V = Seq<EntryView>;

    closed spec fn view(&self) -> Seq<EntryView> {
        entry_views(self.entries@)
    }
}

impl Whitelist {
    /// The bytes of the path of the file that holds the whitelist.
    pub closed spec fn location(&self) -> Seq<u8> {
        self.file@
    }

    /// The whitelist of the vault at `backing_root`, of whose file `stored`
    /// was read. A missing, unreadable or corrupt file (`None`) is an empty
    /// whitelist: a fresh vault has none yet.
    pub fn load(backing_root: &UnixPath, stored: Option<Vec<WhitelistEntry>>) -> (r: Self)
        ensures
            r.location() == path::joined(backing_root@, encode_utf8(WHITELIST_FILENAME@)),
            r@ == match stored {
                Some(entries) => entry_views(entries@),
                None => Seq::<EntryView>::empty(),
            },
    {
        let file = backing_root.join(WHITELIST_FILENAME.as_bytes());
        let entries = match stored {
            Some(entries) => entries,
            None => Vec::new(),
        };
        assert(stored is None ==> entry_views(entries@) =~= Seq::<EntryView>::empty());
        Whitelist { file, entries }
    }

    /// The approved binaries, as they are to be stored.
    pub fn entries(&self) -> (r: &Vec<WhitelistEntry>)
        ensures
            entry_views(r@) == self@,
    {
        &self.entries
    }

    /// The first entry for a path, if any is for it.
    fn find(&self, path: &UnixPath) -> (r: Option<&WhitelistEntry>)
        ensures
            match r {
                Some(e) => first_entry(self@, path.key()) == Some(e@),
                None => first_entry(self@, path.key()) is None,
            },
    {
        let ghost k = path.key();
        let ghost all = entry_views(self.entries@);
        let mut i: usize = 0;
        while i < self.entries.len()
            invariant
                i <= self.entries@.len(),
                k == path.key(),
                all == entry_views(self.entries@),
                first_entry(all.take(i as int), k) is None,
            decreases self.entries@.len() - i,
        {
            assert(all.take(i + 1).drop_last() =~= all.take(i as int));
            assert(all.take(i + 1).last() == all[i as int]);
            if self.entries[i].path.same_path(path) {
                proof {
                    lemma_first_entry_stays(all, i + 1, k);
                }
                return Some(&self.entries[i]);
            }
            i += 1;
        }
        assert(all.take(all.len() as int) =~= all);
        None
    }

    /// Whether the whitelist has an entry for `identity`'s binary at all. Where
    /// it has none, the binary is not allowed whatever it holds, and need not
    /// be read.
    pub fn mentions(&self, identity: &ProcessIdentity) -> (r: bool)
        ensures
            r == (first_entry(self@, identity.path.key()) is Some),
            !r ==> forall|sha256: Option<Seq<char>>|
                !#[trigger] approved_by_digest(self@, identity.path.key(), sha256),
    {
        self.find(&identity.path).is_some()
    }

    /// True if `identity`'s binary was previously approved *and* what it now
    /// holds still matches the hash recorded at approval time. `sha256` is the
    /// digest of what reading the binary gave.
    pub fn is_allowed_by_digest(&self, identity: &ProcessIdentity, sha256: Option<&str>) -> (r:
        bool)
        ensures
            r == approved_by_digest(self@, identity.path.key(), text::text_view(sha256)),
    {
        match (self.find(&identity.path), sha256) {
            (Some(entry), Some(h)) => text::same_text(h, entry.sha256.as_str()),
            _ => false,
        }
    }

    /// True if `identity`'s binary was previously approved *and* what it now
    /// holds still matches the hash recorded at approval time. `contents` is
    /// what reading the binary gave.
    pub fn is_allowed(&self, identity: &ProcessIdentity, contents: Option<&[u8]>) -> (r: bool)
        ensures
            r == approved(self@, identity.path.key(), read_view(contents)),
    {
        match contents {
            Some(c) => self.mentions(identity) && self.is_allowed_by_digest(
                identity,
                Some(digest::hex_digest(c).as_str()),
            ),
            None => false,
        }
    }

    /// Records `identity` as always allowed; the whitelist is then to be
    /// persisted. `contents` is what reading the binary gave just now: it is
    /// hashed here, so that what is stored is what was approved. Where it
    /// could not be read, nothing is recorded.
    pub fn add<E>(
        &mut self,
        identity: &ProcessIdentity,
        contents: Result<&[u8], E>,
        now: u64,
    ) -> (r: Result<(), E>)
        ensures
            final(self).location() == old(self).location(),
            match (contents, r) {
                (Ok(c), Ok(_)) => final(self)@ == with_entry(
                    old(self)@,
                    EntryView {
                        path: identity.path@,
                        comm: identity.comm@,
                        sha256: digest::sha256_text(c@),
                        added_at: now,
                    },
                ),
                (Err(e), Err(f)) => e == f && final(self)@ == old(self)@,
                _ => false,
            },
    {
        self.add_by_digest(identity, hash_file(contents), now)
    }

    /// Records `identity` as always allowed, as `add` does. `sha256` is the
    /// digest of what reading the binary gave.
    pub fn add_by_digest<E>(
        &mut self,
        identity: &ProcessIdentity,
        sha256: Result<String, E>,
        now: u64,
    ) -> (r: Result<(), E>)
        ensures
            final(self).location() == old(self).location(),
            match (sha256, r) {
                (Ok(h), Ok(_)) => final(self)@ == with_entry(
                    old(self)@,
                    EntryView {
                        path: identity.path@,
                        comm: identity.comm@,
                        sha256: h@,
                        added_at: now,
                    },
                ),
                (Err(e), Err(f)) => e == f && final(self)@ == old(self)@,
                _ => false,
            },
    {
        let sha256 = match sha256 {
            Ok(h) => h,
            Err(e) => {
                return Err(e);
            },
        };
        let ghost before = self.entries@;
        let ghost k = identity.path.key();
        let mut earlier: Vec<WhitelistEntry> = Vec::new();
        std::mem::swap(&mut earlier, &mut self.entries);
        let mut kept: Vec<WhitelistEntry> = Vec::new();
        assert(entry_views(before).take(0) =~= Seq::<EntryView>::empty());
        assert(entry_views(kept@) =~= without(entry_views(before).take(0), k));
        for e in it: earlier
            invariant
                it.seq() == before,
                k == identity.path.key(),
                entry_views(kept@) == without(entry_views(before).take(it.index()), k),
        {
            let ghost i = it.index();
            let ghost held = kept@;
            assert(entry_views(before).take(i + 1).drop_last() =~= entry_views(before).take(i));
            assert(entry_views(before).take(i + 1).last() == e@);
            if !e.path.same_path(&identity.path) {
                kept.push(e);
                assert(entry_views(kept@) =~= entry_views(held).push(e@));
            }
        }
        assert(entry_views(before).take(before.len() as int) =~= entry_views(before));
        let ghost held = kept@;
        kept.push(
            WhitelistEntry {
                path: identity.path.clone(),
                comm: identity.comm.clone(),
                sha256,
                added_at: now,
            },
        );
        assert(entry_views(kept@) =~= entry_views(held).push(kept@.last()@));
        self.entries = kept;
        Ok(())
    }

    /// Removes every entry; the (now empty) whitelist is then to be persisted.
    pub fn clear(&mut self)
        ensures
            final(self).location() == old(self).location(),
            final(self)@ == Seq::<EntryView>::empty(),
    {
        self.entries.clear();
        assert(self@ =~= Seq::<EntryView>::empty());
    }

    /// The whitelist as rows of tab-separated values, one for each approved
    /// binary: its digest, when it was approved, its name and its path.
    pub fn tsv(&self) -> (r: String)
        ensures
            r@ == rows(self@),
    {
        let ghost all = entry_views(self.entries@);
        let mut r = String::new();
        let mut i: usize = 0;
        assert(all.take(0) =~= Seq::<EntryView>::empty());
        while i < self.entries.len()
            invariant
                i <= self.entries@.len(),
                all == entry_views(self.entries@),
                r@ == rows(all.take(i as int)),
            decreases self.entries@.len() - i,
        {
            let ghost start = r@;
            let e = &self.entries[i];
            r.append(e.sha256.as_str());
            r.push('\t');
            text::push_decimal(&mut r, e.added_at);
            r.push('\t');
            r.append(e.comm.as_str());
            r.push('\t');
            r.append(e.path.display().as_str());
            r.push('\n');
            assert(r@ =~= start + row(e@));
            assert(all.take(i + 1).drop_last() =~= all.take(i as int));
            assert(all.take(i + 1).last() == e@);
            i += 1;
        }
        assert(all.take(all.len() as int) =~= all);
        r
    }

    /// Where the whitelist is to be written.
    pub fn persist(&self) -> (r: PersistPlan)
        ensures
            r.file@ == self.location(),
            r.temporary@ == self.location() + encode_utf8(".tmp"@),
    {
        let mut bytes = path::copy_bytes(self.file.bytes.as_slice());
        let mut tail = path::copy_bytes(".tmp".as_bytes());
        bytes.append(&mut tail);
        PersistPlan { temporary: UnixPath { bytes }, file: self.file.clone() }
    }
}

/// The entry that is found among the first `n` is the one that is found.
proof fn lemma_first_entry_stays(s: Seq<EntryView>, n: int, k: path::PathKey)
    requires
        0 <= n <= s.len(),
        first_entry(s.take(n), k) is Some,
    ensures
        first_entry(s, k) == first_entry(s.take(n), k),
    decreases s.len() - n,
{
    if n < s.len() {
        assert(s.take(n + 1).drop_last() =~= s.take(n));
        lemma_first_entry_stays(s, n + 1, k);
    } else {
        assert(s.take(n) =~= s);
    }
}

/// Once a path's entries are taken out, none is found for it, and what is
/// found for the other paths is what was found before.
proof fn lemma_without(s: Seq<EntryView>, k: path::PathKey, other: path::PathKey)
    ensures
        first_entry(without(s, k), k) is None,
        other != k ==> first_entry(without(s, k), other) == first_entry(s, other),
    decreases s.len(),
{
    if s.len() > 0 {
        lemma_without(s.drop_last(), k, other);
        let w = without(s.drop_last(), k);
        assert(w.push(s.last()).drop_last() =~= w);
    }
}

/// A binary that was approved is allowed exactly as long as it holds what it
/// held then: the digest is compared each time, so a binary that was swapped
/// out at the same path loses its approval.
pub proof fn law_approval_is_pinned_to_the_contents(
    s: Seq<EntryView>,
    e: EntryView,
    contents: Option<Seq<u8>>,
)
    ensures
        approved(with_entry(s, e), path::key_of(e.path), contents) <==> (contents is Some
            && digest::sha256_text(contents->0) == e.sha256),
{
    let k = path::key_of(e.path);
    lemma_without(s, k, k);
    assert(with_entry(s, e).drop_last() =~= without(s, k));
}

/// To approve a binary changes nothing for the binaries at other paths.
pub proof fn law_approval_is_for_one_path(
    s: Seq<EntryView>,
    e: EntryView,
    other: path::PathKey,
    contents: Option<Seq<u8>>,
)
    requires
        other != path::key_of(e.path),
    ensures
        approved(with_entry(s, e), other, contents) == approved(s, other, contents),
{
    let k = path::key_of(e.path);
    lemma_without(s, k, other);
    assert(with_entry(s, e).drop_last() =~= without(s, k));
}

/// An empty whitelist, such as a cleared one, allows nothing.
pub proof fn law_empty_whitelist_allows_nothing(k: path::PathKey, contents: Option<Seq<u8>>)
    ensures
        !approved(Seq::<EntryView>::empty(), k, contents),
{
}

/// An approval survives a restart: a whitelist that is loaded from the entries
/// of another approves of just what that one approves of.
pub proof fn law_approval_survives_reload(
    kept: Whitelist,
    stored: Seq<WhitelistEntry>,
    loaded: Whitelist,
    k: path::PathKey,
    contents: Option<Seq<u8>>,
)
    requires
        entry_views(stored) == kept@,
        loaded@ == entry_views(stored),
    ensures
        approved(loaded@, k, contents) == approved(kept@, k, contents),
{
}

/// After an approval the path has one entry, the new one: all the others are
/// those of other paths, as they were.
pub proof fn law_one_entry_for_each_approved_path(s: Seq<EntryView>, e: EntryView)
    ensures
        first_entry(with_entry(s, e), path::key_of(e.path)) == Some(e),
        without(with_entry(s, e), path::key_of(e.path)) == without(s, path::key_of(e.path)),
{
    let k = path::key_of(e.path);
    lemma_without(s, k, k);
    assert(with_entry(s, e).drop_last() =~= without(s, k));
    lemma_without_twice(s, k);
}

proof fn lemma_without_twice(s: Seq<EntryView>, k: path::PathKey)
    ensures
        without(without(s, k), k) == without(s, k),
    decreases s.len(),
{
    if s.len() > 0 {
        lemma_without_twice(s.drop_last(), k);
        let w = without(s.drop_last(), k);
        assert(w.push(s.last()).drop_last() =~= w);
    }
}

/// Of several entries for a path the one that stands first counts: an entry put in
/// front is found where it is for the path, and otherwise what was found before.
pub proof fn law_first_entry_counts(e: EntryView, s: Seq<EntryView>, k: path::PathKey)
    ensures
        first_entry(seq![e] + s, k) == if path::key_of(e.path) == k {
            Some(e)
        } else {
            first_entry(s, k)
        },
        first_entry(Seq::empty(), k) is None,
    decreases s.len(),
{
    let all = seq![e] + s;
    if s.len() == 0 {
        assert(all.drop_last() =~= Seq::<EntryView>::empty());
        assert(first_entry(all.drop_last(), k) is None);
    } else {
        law_first_entry_counts(e, s.drop_last(), k);
        assert(all.drop_last() =~= seq![e] + s.drop_last());
    }
}

/// A whitelist has an entry for a path exactly when one of its entries has that
/// path.
pub proof fn law_path_is_found_wherever_it_stands(s: Seq<EntryView>, k: path::PathKey)
    ensures
        first_entry(s, k) is Some <==> exists|i: int|
            0 <= i < s.len() && path::key_of((#[trigger] s[i]).path) == k,
        first_entry(s, k) is Some ==> path::key_of(first_entry(s, k)->0.path) == k && s.contains(
            first_entry(s, k)->0,
        ),
    decreases s.len(),
{
    if s.len() > 0 {
        let front = s.drop_last();
        law_path_is_found_wherever_it_stands(front, k);
        if first_entry(front, k) is Some {
            let e = first_entry(front, k)->0;
            let i = choose|i: int| 0 <= i < front.len() && front[i] == e;
            assert(s[i] == e);
        } else {
            assert forall|i: int| 0 <= i < front.len() implies path::key_of((#[trigger] s[i]).path)
                != k by {
                assert(s[i] == front[i]);
            }
            assert(s[s.len() - 1] == s.last());
        }
    }
}

/// An approval takes out the entries for its path, all of them, keeps all the others
/// in their order, and adds its own at the end.
pub proof fn law_approval_replaces_the_entries_for_its_path(
    s: Seq<EntryView>,
    k: path::PathKey,
    e: EntryView,
)
    ensures
        without(s, k) == s.filter(|held: EntryView| path::key_of(held.path) != k),
        with_entry(s, e).last() == e,
        with_entry(s, e).drop_last() == s.filter(
            |held: EntryView| path::key_of(held.path) != path::key_of(e.path),
        ),
{
    lemma_without_is_filtered(s, k);
    lemma_without_is_filtered(s, path::key_of(e.path));
    assert(with_entry(s, e).drop_last() =~= without(s, path::key_of(e.path)));
}

proof fn lemma_without_is_filtered(s: Seq<EntryView>, k: path::PathKey)
    ensures
        without(s, k) == s.filter(|held: EntryView| path::key_of(held.path) != k),
    decreases s.len(),
{
    reveal(Seq::filter);
    if s.len() > 0 {
        lemma_without_is_filtered(s.drop_last(), k);
    }
}

/// A binary is approved exactly when the entry that counts for its path holds the
/// digest of what the binary holds now, whatever that is. One that cannot be read is
/// not approved, nor one that has no entry.
pub proof fn law_approved_by_the_digest_of_the_contents(
    s: Seq<EntryView>,
    k: path::PathKey,
    contents: Seq<u8>,
    sha256: Seq<char>,
)
    ensures
        approved(s, k, Some(contents)) <==> first_entry(s, k) is Some && first_entry(s, k)->0.sha256
            == digest::sha256_text(contents),
        !approved(s, k, None),
        approved_by_digest(s, k, Some(sha256)) <==> first_entry(s, k) is Some && first_entry(
            s,
            k,
        )->0.sha256 == sha256,
        !approved_by_digest(s, k, None),
        digest_of(Some(contents)) == Some(digest::sha256_text(contents)),
        digest_of(None) is None,
{
}

/// An entry is listed on one row: its digest, its time, its name and its path, with
/// tabs between them; and the rows follow each other in the order of the entries.
pub proof fn law_rows_list_the_entries(s: Seq<EntryView>, e: EntryView)
    ensures
        row(e) == e.sha256 + seq!['\t'] + text::decimal(e.added_at as nat) + seq!['\t'] + e.comm
            + seq!['\t'] + path::utf8_lossy(e.path) + seq!['\n'],
        rows(s.push(e)) == rows(s) + row(e),
        rows(Seq::empty()) == Seq::<char>::empty(),
{
    assert(s.push(e).drop_last() =~= s);
    assert(row(e) =~= e.sha256 + seq!['\t'] + text::decimal(e.added_at as nat) + seq!['\t'] + e.comm
        + seq!['\t'] + path::utf8_lossy(e.path) + seq!['\n']);
}

/// What an entry, a list of entries and the contents of a file say is what they
/// hold.
pub proof fn law_entries_say_what_they_hold(
    e: WhitelistEntry,
    v: Seq<WhitelistEntry>,
    i: int,
    contents: Option<&[u8]>,
)
    ensures
        e@.path == e.path@,
        e@.comm == e.comm@,
        e@.sha256 == e.sha256@,
        e@.added_at == e.added_at,
        entry_views(v).len() == v.len(),
        0 <= i < v.len() ==> entry_views(v)[i] == v[i]@,
        read_view(contents) is Some <==> contents is Some,
        contents is Some ==> read_view(contents) == Some(contents->0@),
{
}

} // verus!
